//! The resilient realtime-channel state machine.
//!
//! The channel tracks connection state and reconnect attempts and decides,
//! for each transport event the caller reports, what happens next: retry
//! after the fixed delay, give up with a terminal network error, heartbeat,
//! or dispatch an inbound message to the host as a typed event. The caller
//! performs the actual connecting, sending and receiving and feeds the
//! outcomes back in.

use vstd::prelude::*;
use crate::error::Error;
use crate::models::WebSocketMessage;

verus! {

/// Where the channel stands.
#[derive(Debug, Clone, Copy, PartialEq, Eq, Structural)]
pub enum ChannelState {
    Disconnected,
    Connecting,
    Connected,
    Reconnecting,
    Failed,
}

/// A scheduled reconnect attempt: wait `delay_secs`, then connect again;
/// `attempt` counts the failures so far.
#[derive(Debug, Clone, Copy, PartialEq, Eq, Structural)]
pub struct RetryPlan {
    pub attempt: u32,
    pub delay_secs: u64,
}

/// The typed event an inbound frame dispatches to the host, if any.
#[derive(Debug)]
pub enum InboundDispatch {
    /// A `data_update` frame: surface a sync update.
    EmitSyncUpdate { item_id: String, device_id: String, timestamp: i64 },
    /// A `device_status` frame: surface a device status change.
    EmitDeviceStatus { device_id: String, is_online: bool },
    /// A `conflict` frame: surface a conflict notification.
    EmitConflict {
        conflict_id: String,
        local_item: crate::models::ClipboardPayload,
        remote_item: crate::models::ClipboardPayload,
    },
    /// A `sync_complete` frame: surface a sync status change.
    EmitSyncComplete { sync_id: String, items_count: i32 },
    /// An `error` frame: surface the server's error.
    EmitError { message: String, code: Option<i32> },
    /// An application-level ping: answer with a pong frame.
    ReplyPong,
    /// Anything else is dropped without effect.
    Ignore,
}

/// How each inbound message is dispatched.
pub open spec fn dispatch_spec(msg: WebSocketMessage) -> InboundDispatch {
    match msg {
        WebSocketMessage::DataUpdate { item_id, device_id, timestamp } => {
            InboundDispatch::EmitSyncUpdate { item_id, device_id, timestamp }
        },
        WebSocketMessage::DeviceStatus { device_id, is_online } => {
            InboundDispatch::EmitDeviceStatus { device_id, is_online }
        },
        WebSocketMessage::Conflict { conflict_id, local_item, remote_item } => {
            InboundDispatch::EmitConflict { conflict_id, local_item, remote_item }
        },
        WebSocketMessage::SyncComplete { sync_id, items_count } => {
            InboundDispatch::EmitSyncComplete { sync_id, items_count }
        },
        WebSocketMessage::Error { message, code } => InboundDispatch::EmitError { message, code },
        WebSocketMessage::Ping => InboundDispatch::ReplyPong,
        WebSocketMessage::Pong => InboundDispatch::Ignore,
        WebSocketMessage::Auth { .. } => InboundDispatch::Ignore,
    }
}

/// Maintains the connection lifecycle: `Disconnected` through `Connecting`
/// to `Connected`, falling back to `Reconnecting` at most
/// `max_reconnect_attempts` times before `Failed`.
pub struct RealtimeChannel {
    state: ChannelState,
    reconnect_attempts: u32,
    max_reconnect_attempts: u32,
    reconnect_delay_secs: u64,
    heartbeat_interval_secs: u64,
}

impl RealtimeChannel {
    /// The current lifecycle state.
    pub closed spec fn spec_state(&self) -> ChannelState {
        self.state
    }

    /// How many consecutive connect attempts have failed.
    pub closed spec fn spec_attempts(&self) -> u32 {
        self.reconnect_attempts
    }

    /// The failure budget before the channel gives up.
    pub closed spec fn spec_max_attempts(&self) -> u32 {
        self.max_reconnect_attempts
    }

    /// The fixed delay before a scheduled retry, in seconds.
    pub closed spec fn spec_retry_delay(&self) -> u64 {
        self.reconnect_delay_secs
    }

    /// The fixed heartbeat cadence, in seconds.
    pub closed spec fn spec_heartbeat_interval(&self) -> u64 {
        self.heartbeat_interval_secs
    }

    /// A disconnected channel with the documented policy: at most five
    /// attempts, five seconds between retries, a ping every thirty seconds.
    pub fn new() -> (r: RealtimeChannel)
        ensures
            r.spec_state() == ChannelState::Disconnected,
            r.spec_attempts() == 0,
            r.spec_max_attempts() == 5,
            r.spec_retry_delay() == 5,
            r.spec_heartbeat_interval() == 30,
    {
        RealtimeChannel {
            state: ChannelState::Disconnected,
            reconnect_attempts: 0,
            max_reconnect_attempts: 5,
            reconnect_delay_secs: 5,
            heartbeat_interval_secs: 30,
        }
    }

    /// Claims the connecting slot: a no-op (false) while a connect is
    /// already in flight, otherwise the channel turns `Connecting` and the
    /// caller performs the handshake.
    pub fn begin_connect(&mut self) -> (proceed: bool)
        ensures
            proceed == (old(self).spec_state() != ChannelState::Connecting),
            final(self).spec_state() == ChannelState::Connecting,
            final(self).spec_attempts() == old(self).spec_attempts(),
            final(self).spec_max_attempts() == old(self).spec_max_attempts(),
            final(self).spec_retry_delay() == old(self).spec_retry_delay(),
            final(self).spec_heartbeat_interval() == old(self).spec_heartbeat_interval(),
    {
        if self.state == ChannelState::Connecting {
            false
        } else {
            self.state = ChannelState::Connecting;
            true
        }
    }

    /// Records a successful handshake: the channel is `Connected` and the
    /// reconnect counter resets to zero. The caller starts the inbound and
    /// heartbeat loops and announces the connection.
    pub fn connect_succeeded(&mut self)
        ensures
            final(self).spec_state() == ChannelState::Connected,
            final(self).spec_attempts() == 0,
            final(self).spec_max_attempts() == old(self).spec_max_attempts(),
            final(self).spec_retry_delay() == old(self).spec_retry_delay(),
            final(self).spec_heartbeat_interval() == old(self).spec_heartbeat_interval(),
    {
        self.state = ChannelState::Connected;
        self.reconnect_attempts = 0;
    }

    /// Records a failed handshake. Below the failure budget the channel
    /// schedules a retry after the fixed delay and turns `Reconnecting`;
    /// reaching the budget turns it `Failed` and returns the terminal
    /// network error, which only the original caller sees.
    pub fn connect_failed(&mut self) -> (r: Result<RetryPlan, Error>)
        ensures
            final(self).spec_attempts() == (if old(self).spec_attempts() < u32::MAX {
                old(self).spec_attempts() + 1
            } else {
                u32::MAX as int
            }),
            final(self).spec_max_attempts() == old(self).spec_max_attempts(),
            final(self).spec_retry_delay() == old(self).spec_retry_delay(),
            final(self).spec_heartbeat_interval() == old(self).spec_heartbeat_interval(),
            match r {
                Ok(plan) => {
                    &&& final(self).spec_attempts() < final(self).spec_max_attempts()
                    &&& final(self).spec_state() == ChannelState::Reconnecting
                    &&& plan.attempt == final(self).spec_attempts()
                    &&& plan.delay_secs == final(self).spec_retry_delay()
                },
                Err(e) => {
                    &&& final(self).spec_attempts() >= final(self).spec_max_attempts()
                    &&& final(self).spec_state() == ChannelState::Failed
                    &&& e is NetworkError
                },
            },
    {
        if self.reconnect_attempts < u32::MAX {
            self.reconnect_attempts = self.reconnect_attempts + 1;
        }
        if self.reconnect_attempts < self.max_reconnect_attempts {
            self.state = ChannelState::Reconnecting;
            Ok(RetryPlan { attempt: self.reconnect_attempts, delay_secs: self.reconnect_delay_secs })
        } else {
            self.state = ChannelState::Failed;
            Err(Error::NetworkError(String::from_str("WebSocket connection failed")))
        }
    }

    /// Marks the channel disconnected; the loops observe this and exit
    /// cooperatively. The caller announces the disconnection.
    pub fn disconnect(&mut self)
        ensures
            final(self).spec_state() == ChannelState::Disconnected,
            final(self).spec_attempts() == old(self).spec_attempts(),
            final(self).spec_max_attempts() == old(self).spec_max_attempts(),
            final(self).spec_retry_delay() == old(self).spec_retry_delay(),
            final(self).spec_heartbeat_interval() == old(self).spec_heartbeat_interval(),
    {
        self.state = ChannelState::Disconnected;
    }

    /// Whether the transport is currently considered connected.
    pub fn is_connected(&self) -> (r: bool)
        ensures
            r == (self.spec_state() == ChannelState::Connected),
    {
        self.state == ChannelState::Connected
    }

    /// A transport-level close or error: the connection flag drops and the
    /// caller triggers a reconnect attempt from the inbound loop.
    pub fn on_transport_closed(&mut self)
        ensures
            final(self).spec_state() == ChannelState::Disconnected,
            final(self).spec_attempts() == old(self).spec_attempts(),
            final(self).spec_max_attempts() == old(self).spec_max_attempts(),
            final(self).spec_retry_delay() == old(self).spec_retry_delay(),
            final(self).spec_heartbeat_interval() == old(self).spec_heartbeat_interval(),
    {
        self.state = ChannelState::Disconnected;
    }

    /// Whether the heartbeat loop should send its next transport-level ping:
    /// exactly while connected. A send failure is reported back through
    /// `on_transport_closed`.
    pub fn heartbeat_due(&self) -> (r: bool)
        ensures
            r == (self.spec_state() == ChannelState::Connected),
    {
        self.state == ChannelState::Connected
    }

    /// Gates an outbound message: the frame to write while connected, an
    /// immediate network error otherwise.
    pub fn send_message(&self, message: WebSocketMessage) -> (r: Result<WebSocketMessage, Error>)
        ensures
            self.spec_state() == ChannelState::Connected ==> (match r {
                Ok(m) => m == message,
                Err(_) => false,
            }),
            self.spec_state() != ChannelState::Connected ==> (match r {
                Ok(_) => false,
                Err(e) => e is NetworkError,
            }),
    {
        if self.state == ChannelState::Connected {
            Ok(message)
        } else {
            Err(Error::NetworkError(String::from_str("WebSocket not connected")))
        }
    }

    /// Dispatches one parsed inbound message to its typed host event;
    /// application pings are answered, pongs and stray auth frames dropped.
    pub fn dispatch_message(&self, message: WebSocketMessage) -> (r: InboundDispatch)
        ensures
            r == dispatch_spec(message),
    {
        match message {
            WebSocketMessage::DataUpdate { item_id, device_id, timestamp } => {
                InboundDispatch::EmitSyncUpdate { item_id, device_id, timestamp }
            },
            WebSocketMessage::DeviceStatus { device_id, is_online } => {
                InboundDispatch::EmitDeviceStatus { device_id, is_online }
            },
            WebSocketMessage::Conflict { conflict_id, local_item, remote_item } => {
                InboundDispatch::EmitConflict { conflict_id, local_item, remote_item }
            },
            WebSocketMessage::SyncComplete { sync_id, items_count } => {
                InboundDispatch::EmitSyncComplete { sync_id, items_count }
            },
            WebSocketMessage::Error { message, code } => {
                InboundDispatch::EmitError { message, code }
            },
            WebSocketMessage::Ping => InboundDispatch::ReplyPong,
            WebSocketMessage::Pong => InboundDispatch::Ignore,
            WebSocketMessage::Auth { .. } => InboundDispatch::Ignore,
        }
    }
}

/// The connection URL: the base endpoint with the auth token and device id
/// as query parameters.
pub fn build_connection_url(base: &str, token: &str, device_id: &str) -> (r: String)
    ensures
        r@ == base@ + "?token="@ + token@ + "&device_id="@ + device_id@,
{
    String::from_str(base).concat("?token=").concat(token).concat("&device_id=").concat(device_id)
}

} // verus!
