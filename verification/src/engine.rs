//! The synchronization orchestrator: config-gated routing of outbound
//! changes, the pending queue, status aggregation and the decisions the
//! background loops act on.
//!
//! The engine is a state machine over plain values. Network I/O stays with
//! the caller: `sync_data` either rejects, queues, or hands back a prepared
//! (encrypted) upload to POST; the queue drainer takes the whole queue
//! snapshot through `drain_queue` and prepares each request; pull results
//! come back through `process_remote_update`, which decrypts them.

use vstd::prelude::*;
use crate::clock::{now_rfc3339, rfc3339_millis};
use crate::codec::payload_fits;
use crate::crypto::new_uuid;
use crate::encryption::{EncryptionManager, decrypt_payload_spec};
use crate::error::Error;
use crate::models::{
    ClipboardPayload, ConfigView, EncryptedData, SyncConfig, SyncDataRequest, SyncDataResponse,
    SyncStatus, clone_opt_string, str_eq,
};

verus! {

/// Whether a payload kind is in the configured allow-list.
pub open spec fn allowed_type(cfg: ConfigView, kind: Seq<char>) -> bool {
    exists|i: int| 0 <= i < cfg.sync_types.len() && cfg.sync_types[i] == kind
}

/// A non-negative saturating add on 32-bit counters.
pub open spec fn sat_add_i32(a: int, b: int) -> int {
    if a + b > i32::MAX {
        i32::MAX as int
    } else {
        a + b
    }
}

/// An outbound change, encrypted and ready to POST to the sync endpoint.
#[derive(Debug)]
pub struct PreparedUpload {
    pub sync_id: String,
    pub device_id: String,
    pub timestamp: i64,
    pub data_type: String,
    pub encrypted_data: EncryptedData,
    pub subtype: Option<String>,
    pub width: Option<i32>,
    pub height: Option<i32>,
}

/// What one `sync_data` call decided.
#[derive(Debug)]
pub enum SyncOutcome {
    /// Gated off by configuration; the response explains why.
    Rejected(SyncDataResponse),
    /// Appended to the pending queue; the response carries a correlation id.
    Queued(SyncDataResponse),
    /// Auto-sync is on: the caller must POST this prepared upload.
    Push(PreparedUpload),
}

/// The aggregate outcome of a forced full synchronization.
#[derive(Debug)]
pub struct ForceSyncSummary {
    pub success: bool,
    pub total_synced: i32,
    pub errors: i32,
}

/// Owns the pending queue, the configuration and running flags, the persisted
/// counters, and the encryption manager.
pub struct SyncEngine {
    config: SyncConfig,
    running: bool,
    sync_queue: Vec<SyncDataRequest>,
    last_sync_time: Option<String>,
    sync_errors: i32,
    total_synced: i32,
    encryption: EncryptionManager,
}

impl SyncEngine {
    /// Well-formedness: the key material is well-formed and counters are
    /// non-negative.
    pub closed spec fn wf(&self) -> bool {
        &&& self.encryption.wf()
        &&& self.sync_errors >= 0
        &&& self.total_synced >= 0
    }

    /// The live configuration.
    pub closed spec fn spec_config(&self) -> ConfigView {
        self.config@
    }

    /// The running flag the background loops poll.
    pub closed spec fn spec_running(&self) -> bool {
        self.running
    }

    /// The pending queue, in FIFO order.
    pub closed spec fn spec_queue(&self) -> Seq<SyncDataRequest> {
        self.sync_queue@
    }

    /// The persisted counters and last-sync marker.
    pub closed spec fn spec_last_sync_time(&self) -> Option<Seq<char>> {
        self.last_sync_time.deep_view()
    }

    /// The persisted error counter.
    pub closed spec fn spec_sync_errors(&self) -> int {
        self.sync_errors as int
    }

    /// The persisted total-synced counter.
    pub closed spec fn spec_total_synced(&self) -> int {
        self.total_synced as int
    }

    /// The key material the engine encrypts with.
    pub closed spec fn spec_encryption(&self) -> EncryptionManager {
        self.encryption
    }

    /// An engine around the given key material: default configuration, not
    /// running, empty queue, zeroed counters.
    pub fn new(encryption: EncryptionManager) -> (r: SyncEngine)
        requires
            encryption.wf(),
        ensures
            r.wf(),
            r.spec_config() == crate::models::spec_default_config(),
            !r.spec_running(),
            r.spec_queue().len() == 0,
            r.spec_last_sync_time() is None,
            r.spec_sync_errors() == 0,
            r.spec_total_synced() == 0,
            r.spec_encryption() == encryption,
    {
        SyncEngine {
            config: SyncConfig::default(),
            running: false,
            sync_queue: Vec::new(),
            last_sync_time: None,
            sync_errors: 0,
            total_synced: 0,
            encryption,
        }
    }

    /// Read access to the key material, for decrypting inbound items.
    pub fn encryption(&self) -> (r: &EncryptionManager)
        ensures
            *r == self.spec_encryption(),
    {
        &self.encryption
    }

    /// Starts the engine; idempotent. True exactly when the flag flipped, in
    /// which case the caller spins up the background loops and announces the
    /// running state.
    pub fn start(&mut self) -> (started: bool)
        requires
            old(self).wf(),
        ensures
            final(self).wf(),
            final(self).spec_running(),
            started == !old(self).spec_running(),
            final(self).spec_config() == old(self).spec_config(),
            final(self).spec_queue() == old(self).spec_queue(),
            final(self).spec_encryption() == old(self).spec_encryption(),
            final(self).spec_sync_errors() == old(self).spec_sync_errors(),
            final(self).spec_total_synced() == old(self).spec_total_synced(),
            final(self).spec_last_sync_time() == old(self).spec_last_sync_time(),
    {
        if self.running {
            false
        } else {
            self.running = true;
            true
        }
    }

    /// Stops the engine; idempotent. True exactly when the flag flipped.
    /// The loops observe the flag and exit cooperatively.
    pub fn stop(&mut self) -> (stopped: bool)
        requires
            old(self).wf(),
        ensures
            final(self).wf(),
            !final(self).spec_running(),
            stopped == old(self).spec_running(),
            final(self).spec_config() == old(self).spec_config(),
            final(self).spec_queue() == old(self).spec_queue(),
            final(self).spec_encryption() == old(self).spec_encryption(),
            final(self).spec_sync_errors() == old(self).spec_sync_errors(),
            final(self).spec_total_synced() == old(self).spec_total_synced(),
            final(self).spec_last_sync_time() == old(self).spec_last_sync_time(),
    {
        if self.running {
            self.running = false;
            true
        } else {
            false
        }
    }

    /// Whether the periodic puller should act this tick: only while running
    /// with sync enabled and automatic.
    pub fn should_auto_pull(&self) -> (r: bool)
        ensures
            r == (self.spec_running() && self.spec_config().enabled
                && self.spec_config().auto_sync),
    {
        self.running && self.config.enabled && self.config.auto_sync
    }

    /// Whether the queue drainer should act this tick.
    pub fn should_drain(&self) -> (r: bool)
        ensures
            r == self.spec_running(),
    {
        self.running
    }

    /// Whether this payload kind is in the configured allow-list.
    fn type_allowed(&self, kind: &str) -> (r: bool)
        ensures
            r == allowed_type(self.spec_config(), kind@),
    {
        let mut i: usize = 0;
        while i < self.config.sync_types.len()
            invariant
                i <= self.config.sync_types@.len(),
                forall|j: int|
                    0 <= j < i ==> self.spec_config().sync_types[j] != kind@,
            decreases self.config.sync_types@.len() - i,
        {
            if str_eq(self.config.sync_types[i].as_str(), kind) {
                assert(self.spec_config().sync_types[i as int] == kind@);
                return true;
            }
            i = i + 1;
        }
        false
    }

    /// Routes one outbound change: rejected (not an error) when sync is
    /// disabled or the payload kind is not allow-listed; queued when
    /// auto-sync is off; otherwise encrypted into a prepared upload for the
    /// caller to POST. Only the queued path changes engine state.
    pub fn sync_data(&mut self, request: SyncDataRequest) -> (r: Result<SyncOutcome, Error>)
        requires
            old(self).wf(),
        ensures
            final(self).wf(),
            final(self).spec_config() == old(self).spec_config(),
            final(self).spec_running() == old(self).spec_running(),
            final(self).spec_encryption() == old(self).spec_encryption(),
            final(self).spec_sync_errors() == old(self).spec_sync_errors(),
            final(self).spec_total_synced() == old(self).spec_total_synced(),
            final(self).spec_last_sync_time() == old(self).spec_last_sync_time(),
            !old(self).spec_config().enabled ==> match r {
                Ok(o) => o matches SyncOutcome::Rejected(resp) && !resp.success && resp.sync_id
                    is None && resp.conflicts is None && (match resp.message {
                    Some(m) => m@ == "Sync is disabled"@ && m@.len() > 0,
                    None => false,
                }) && final(self).spec_queue() == old(self).spec_queue(),
                Err(_) => false,
            },
            old(self).spec_config().enabled && !allowed_type(
                old(self).spec_config(),
                request.data@.kind,
            ) ==> match r {
                Ok(o) => o matches SyncOutcome::Rejected(resp) && !resp.success && resp.sync_id
                    is None && resp.conflicts is None && (match resp.message {
                    Some(m) => m@ == "Data type '"@ + request.data@.kind
                        + "' is not enabled for sync"@ && m@.len() > 0,
                    None => false,
                }) && final(self).spec_queue() == old(self).spec_queue(),
                Err(_) => false,
            },
            old(self).spec_config().enabled && allowed_type(
                old(self).spec_config(),
                request.data@.kind,
            ) && !old(self).spec_config().auto_sync ==> match r {
                Ok(o) => o matches SyncOutcome::Queued(resp) && resp.success && resp.sync_id
                    is Some && resp.conflicts is None && resp.message is Some && final(self).spec_queue() == old(self).spec_queue().push(request),
                Err(_) => false,
            },
            old(self).spec_config().enabled && allowed_type(
                old(self).spec_config(),
                request.data@.kind,
            ) && old(self).spec_config().auto_sync ==> final(self).spec_queue() == old(self).spec_queue() && match r {
                Ok(o) => o matches SyncOutcome::Push(u) && upload_ok(
                    old(self).spec_encryption(),
                    u,
                    request,
                ),
                Err(e) => e is EncryptionFailed,
            },
            old(self).spec_config().enabled && allowed_type(
                old(self).spec_config(),
                request.data@.kind,
            ) && old(self).spec_config().auto_sync && old(self).spec_encryption().spec_master()
                is Some && payload_fits(request.data@) ==> r is Ok,
    {
        proof {
            reveal_strlit("Sync is disabled");
            reveal_strlit("Data type '");
        }
        if !self.config.enabled {
            return Ok(
                SyncOutcome::Rejected(
                    SyncDataResponse {
                        success: false,
                        sync_id: None,
                        conflicts: None,
                        message: Some(String::from_str("Sync is disabled")),
                    },
                ),
            );
        }
        if !self.type_allowed(request.data.kind.as_str()) {
            let message = String::from_str("Data type '").concat(request.data.kind.as_str()).concat(
                "' is not enabled for sync",
            );
            return Ok(
                SyncOutcome::Rejected(
                    SyncDataResponse {
                        success: false,
                        sync_id: None,
                        conflicts: None,
                        message: Some(message),
                    },
                ),
            );
        }
        if self.config.auto_sync {
            match self.prepare_upload(&request) {
                Ok(u) => Ok(SyncOutcome::Push(u)),
                Err(e) => Err(e),
            }
        } else {
            self.sync_queue.push(request);
            Ok(
                SyncOutcome::Queued(
                    SyncDataResponse {
                        success: true,
                        sync_id: Some(new_uuid()),
                        conflicts: None,
                        message: Some(String::from_str("Added to sync queue")),
                    },
                ),
            )
        }
    }

    /// Encrypts one request into a prepared upload: the envelope decrypts
    /// back to the request's payload under this engine's keys, and the
    /// transport metadata copies the request verbatim.
    pub fn prepare_upload(&self, request: &SyncDataRequest) -> (r: Result<PreparedUpload, Error>)
        requires
            self.wf(),
        ensures
            match r {
                Ok(u) => upload_ok(self.spec_encryption(), u, *request),
                Err(e) => e is EncryptionFailed,
            },
            self.spec_encryption().spec_master() is Some && payload_fits(request.data@) ==> r
                is Ok,
    {
        let encrypted_data = match self.encryption.encrypt_clipboard_data(&request.data) {
            Ok(ed) => ed,
            Err(e) => {
                return Err(e);
            },
        };
        Ok(
            PreparedUpload {
                sync_id: new_uuid(),
                device_id: request.device_id.clone(),
                timestamp: request.timestamp,
                data_type: request.data.kind.clone(),
                encrypted_data,
                subtype: clone_opt_string(&request.data.subtype),
                width: request.data.width,
                height: request.data.height,
            },
        )
    }

    /// The response for a push the server accepted, carrying any conflicts
    /// the server reported back to the caller.
    pub fn complete_push(
        &self,
        sync_id: String,
        conflicts: Option<Vec<crate::models::SyncConflict>>,
    ) -> (r: SyncDataResponse)
        ensures
            r.success,
            r.sync_id == Some(sync_id),
            r.conflicts == conflicts,
            r.message is None,
    {
        SyncDataResponse { success: true, sync_id: Some(sync_id), conflicts, message: None }
    }

    /// Atomically swaps the whole queue out for processing, so producers
    /// never wait on network latency. The snapshot preserves FIFO order.
    pub fn drain_queue(&mut self) -> (r: Vec<SyncDataRequest>)
        requires
            old(self).wf(),
        ensures
            final(self).wf(),
            r@ == old(self).spec_queue(),
            final(self).spec_queue().len() == 0,
            final(self).spec_config() == old(self).spec_config(),
            final(self).spec_running() == old(self).spec_running(),
            final(self).spec_encryption() == old(self).spec_encryption(),
            final(self).spec_sync_errors() == old(self).spec_sync_errors(),
            final(self).spec_total_synced() == old(self).spec_total_synced(),
            final(self).spec_last_sync_time() == old(self).spec_last_sync_time(),
    {
        let mut drained: Vec<SyncDataRequest> = Vec::new();
        core::mem::swap(&mut self.sync_queue, &mut drained);
        drained
    }

    /// Decrypts one remote item, exactly as the encryption layer specifies.
    pub fn process_remote_update(&self, encrypted: &EncryptedData) -> (r: Result<
        ClipboardPayload,
        Error,
    >)
        requires
            self.wf(),
        ensures
            match r {
                Ok(p) => decrypt_payload_spec(&self.spec_encryption(), encrypted@) == Some(p@),
                Err(e) => decrypt_payload_spec(&self.spec_encryption(), encrypted@) is None && e
                    is DecryptionFailed,
            },
    {
        self.encryption.decrypt_clipboard_data(encrypted)
    }

    /// Advances the last-sync marker to now, after a completed pull.
    pub fn record_pull_complete(&mut self)
        requires
            old(self).wf(),
        ensures
            final(self).wf(),
            match final(self).spec_last_sync_time() {
                Some(t) => rfc3339_millis(t) is Some,
                None => false,
            },
            final(self).spec_queue() == old(self).spec_queue(),
            final(self).spec_config() == old(self).spec_config(),
            final(self).spec_running() == old(self).spec_running(),
            final(self).spec_encryption() == old(self).spec_encryption(),
            final(self).spec_sync_errors() == old(self).spec_sync_errors(),
            final(self).spec_total_synced() == old(self).spec_total_synced(),
    {
        self.last_sync_time = Some(now_rfc3339());
    }

    /// Folds a forced-full-sync outcome into the persisted counters: errors
    /// are counted, never fatal; counters saturate rather than wrap; and the
    /// last-sync marker always advances, even on partial failure.
    pub fn apply_force_sync_outcome(
        &mut self,
        pushed: i32,
        push_failed: bool,
        pull_failed: bool,
    ) -> (r: ForceSyncSummary)
        requires
            old(self).wf(),
            pushed >= 0,
        ensures
            final(self).wf(),
            r.errors == (if push_failed { 1int } else { 0int }) + (if pull_failed {
                1int
            } else {
                0int
            }),
            r.success == (r.errors == 0),
            r.total_synced == pushed,
            final(self).spec_total_synced() == sat_add_i32(
                old(self).spec_total_synced(),
                pushed as int,
            ),
            final(self).spec_sync_errors() == sat_add_i32(
                old(self).spec_sync_errors(),
                r.errors as int,
            ),
            match final(self).spec_last_sync_time() {
                Some(t) => rfc3339_millis(t) is Some,
                None => false,
            },
            final(self).spec_queue() == old(self).spec_queue(),
            final(self).spec_config() == old(self).spec_config(),
            final(self).spec_running() == old(self).spec_running(),
            final(self).spec_encryption() == old(self).spec_encryption(),
    {
        let errors: i32 = (if push_failed {
            1
        } else {
            0
        }) + (if pull_failed {
            1
        } else {
            0
        });
        self.total_synced = if self.total_synced > i32::MAX - pushed {
            i32::MAX
        } else {
            self.total_synced + pushed
        };
        self.sync_errors = if self.sync_errors > i32::MAX - errors {
            i32::MAX
        } else {
            self.sync_errors + errors
        };
        self.last_sync_time = Some(now_rfc3339());
        ForceSyncSummary { success: errors == 0, total_synced: pushed, errors }
    }

    /// The aggregated status: persisted counters merged with the live queue
    /// length and running flag — not a pure read of storage.
    pub fn get_status(&self) -> (r: SyncStatus)
        ensures
            r.status@ == if self.spec_running() {
                "running"@
            } else {
                "idle"@
            },
            r.last_sync_time.deep_view() == self.spec_last_sync_time(),
            r.pending_items as int == (if self.spec_queue().len() > i32::MAX {
                i32::MAX as int
            } else {
                self.spec_queue().len() as int
            }),
            r.sync_errors as int == self.spec_sync_errors(),
            r.total_synced as int == self.spec_total_synced(),
    {
        let pending: i32 = if self.sync_queue.len() > i32::MAX as usize {
            i32::MAX
        } else {
            self.sync_queue.len() as i32
        };
        SyncStatus {
            status: if self.running {
                String::from_str("running")
            } else {
                String::from_str("idle")
            },
            last_sync_time: clone_opt_string(&self.last_sync_time),
            pending_items: pending,
            sync_errors: self.sync_errors,
            total_synced: self.total_synced,
        }
    }

    /// Replaces the live configuration.
    pub fn update_config(&mut self, config: SyncConfig) -> (r: Result<(), Error>)
        requires
            old(self).wf(),
        ensures
            r is Ok,
            final(self).wf(),
            final(self).spec_config() == config@,
            final(self).spec_queue() == old(self).spec_queue(),
            final(self).spec_running() == old(self).spec_running(),
            final(self).spec_encryption() == old(self).spec_encryption(),
            final(self).spec_sync_errors() == old(self).spec_sync_errors(),
            final(self).spec_total_synced() == old(self).spec_total_synced(),
            final(self).spec_last_sync_time() == old(self).spec_last_sync_time(),
    {
        self.config = config;
        Ok(())
    }

    /// The live configuration, copied out.
    pub fn get_config(&self) -> (r: SyncConfig)
        ensures
            r@ == self.spec_config(),
    {
        SyncConfig {
            enabled: self.config.enabled,
            auto_sync: self.config.auto_sync,
            sync_types: clone_string_vec(&self.config.sync_types),
            exclude_devices: clone_string_vec(&self.config.exclude_devices),
            image_compression: self.config.image_compression,
            max_image_size: self.config.max_image_size,
            sync_on_wifi: self.config.sync_on_wifi,
            compression_quality: self.config.compression_quality,
        }
    }
}

/// What a prepared upload promises: the envelope decrypts back to the
/// request's payload under the engine's keys, and the transport metadata
/// copies the request.
pub open spec fn upload_ok(
    enc: EncryptionManager,
    u: PreparedUpload,
    request: SyncDataRequest,
) -> bool {
    &&& decrypt_payload_spec(&enc, u.encrypted_data@) == Some(request.data@)
    &&& u.device_id@ == request.device_id@
    &&& u.timestamp == request.timestamp
    &&& u.data_type@ == request.data@.kind
    &&& u.subtype.deep_view() == request.data@.subtype
    &&& crate::models::opt_int(u.width) == request.data@.width
    &&& crate::models::opt_int(u.height) == request.data@.height
    &&& u.sync_id@.len() == 36
}

/// Copies a list of strings; the copy is view-identical.
pub fn clone_string_vec(v: &Vec<String>) -> (r: Vec<String>)
    ensures
        r.deep_view() == v.deep_view(),
{
    let mut out: Vec<String> = Vec::new();
    let mut i: usize = 0;
    while i < v.len()
        invariant
            i <= v@.len(),
            out@.len() == i,
            forall|j: int| 0 <= j < i ==> (#[trigger] out@[j])@ == v@[j]@,
        decreases v@.len() - i,
    {
        out.push(v[i].clone());
        i = i + 1;
    }
    proof {
        assert(out.deep_view() =~= v.deep_view());
    }
    out
}

} // verus!
