//! Data model of the sync core: clipboard payloads, sync requests and
//! responses, conflicts and their resolutions, keys and ciphertext envelopes,
//! configuration, status and the realtime wire messages.
//!
//! Each structured type carries a mathematical view (`@`) over sequences and
//! unbounded integers; every contract in the crate speaks about those views.

use vstd::prelude::*;

verus! {

// ==================== clipboard payloads ====================

/// One clipboard item as it travels between devices. `value` is the
/// content-comparison key; `kind` (text / image / files / other) selects the
/// comparison and merge semantics. Structurally compared, never by identity.
#[derive(Debug, Clone)]
pub struct ClipboardPayload {
    pub kind: String,
    pub group: Option<String>,
    pub subtype: Option<String>,
    pub count: i32,
    pub value: String,
    pub search: String,
    pub width: Option<i32>,
    pub height: Option<i32>,
    /// RFC 3339 timestamp of the edit that produced this snapshot.
    pub timestamp: String,
}

/// An optional machine integer as an optional unbounded integer.
pub open spec fn opt_int(o: Option<i32>) -> Option<int> {
    match o {
        Some(x) => Some(x as int),
        None => None,
    }
}

/// Mathematical view of a [`ClipboardPayload`].
#[verifier::ext_equal]
pub ghost struct PayloadView {
    pub kind: Seq<char>,
    pub group: Option<Seq<char>>,
    pub subtype: Option<Seq<char>>,
    pub count: int,
    pub value: Seq<char>,
    pub search: Seq<char>,
    pub width: Option<int>,
    pub height: Option<int>,
    pub timestamp: Seq<char>,
}

impl View for ClipboardPayload {
    type V = PayloadView;

    open spec fn view(&self) -> PayloadView {
        PayloadView {
            kind: self.kind@,
            group: self.group.deep_view(),
            subtype: self.subtype.deep_view(),
            count: self.count as int,
            value: self.value@,
            search: self.search@,
            width: opt_int(self.width),
            height: opt_int(self.height),
            timestamp: self.timestamp@,
        }
    }
}

impl ClipboardPayload {
    /// A structural copy whose view equals this payload's view.
    pub fn duplicate(&self) -> (r: ClipboardPayload)
        ensures
            r@ == self@,
    {
        ClipboardPayload {
            kind: self.kind.clone(),
            group: clone_opt_string(&self.group),
            subtype: clone_opt_string(&self.subtype),
            count: self.count,
            value: self.value.clone(),
            search: self.search.clone(),
            width: self.width,
            height: self.height,
            timestamp: self.timestamp.clone(),
        }
    }
}

/// Whether two string slices hold the same characters.
pub fn str_eq(a: &str, b: &str) -> (r: bool)
    ensures
        r == (a@ == b@),
{
    let x = a.to_owned();
    let y = b.to_owned();
    x.eq(&y)
}

/// Copies an optional string; the copy has the same view.
pub fn clone_opt_string(o: &Option<String>) -> (r: Option<String>)
    ensures
        r.deep_view() == o.deep_view(),
{
    match o {
        Some(s) => Some(s.clone()),
        None => None,
    }
}

// ==================== sync requests and responses ====================

/// A single outbound change intent.
#[derive(Debug, Clone)]
pub struct SyncDataRequest {
    pub data: ClipboardPayload,
    pub device_id: String,
    pub timestamp: i64,
}

/// Mathematical view of a [`SyncDataRequest`].
#[verifier::ext_equal]
pub ghost struct RequestView {
    pub data: PayloadView,
    pub device_id: Seq<char>,
    pub timestamp: int,
}

impl View for SyncDataRequest {
    type V = RequestView;

    open spec fn view(&self) -> RequestView {
        RequestView {
            data: self.data@,
            device_id: self.device_id@,
            timestamp: self.timestamp as int,
        }
    }
}

/// The outcome of one `sync_data` call.
#[derive(Debug)]
pub struct SyncDataResponse {
    pub success: bool,
    pub sync_id: Option<String>,
    pub conflicts: Option<Vec<SyncConflict>>,
    pub message: Option<String>,
}

// ==================== conflicts ====================

/// Why two snapshots of the same logical item disagree, in priority order:
/// differing kinds outrank differing values, which outrank metadata drift.
#[derive(Debug, Clone, Copy, PartialEq, Eq, Structural)]
pub enum ConflictType {
    TypeMismatch,
    ContentMismatch,
    MetadataMismatch,
}

/// Lifecycle of a conflict record: pending until resolved, exactly once.
#[derive(Debug, Clone, Copy, PartialEq, Eq, Structural)]
pub enum ConflictStatus {
    Pending,
    Resolved,
}

/// How a conflict is (to be) resolved.
#[derive(Debug, Clone, Copy, PartialEq, Eq, Structural)]
pub enum ConflictResolutionStrategy {
    /// The snapshot with the strictly newer timestamp wins; ties favor remote.
    UseLatest,
    /// Take the local snapshot verbatim.
    UseLocal,
    /// Take the remote snapshot verbatim.
    UseRemote,
    /// Concatenate two text payloads; other pairs fall back to `UseLatest`.
    Merge,
    /// Caller supplies the resolved payload.
    Manual,
}

/// The resolution attached to a conflict record, produced exactly once.
#[derive(Debug, Clone)]
pub struct ConflictResolution {
    pub conflict_id: String,
    pub strategy: ConflictResolutionStrategy,
    pub resolved_data: Option<ClipboardPayload>,
    pub resolved_by: String,
    pub resolved_at: String,
    pub notes: Option<String>,
}

/// Mathematical view of a [`ConflictResolution`].
#[verifier::ext_equal]
pub ghost struct ResolutionView {
    pub conflict_id: Seq<char>,
    pub strategy: ConflictResolutionStrategy,
    pub resolved_data: Option<PayloadView>,
    pub resolved_by: Seq<char>,
    pub resolved_at: Seq<char>,
    pub notes: Option<Seq<char>>,
}

impl View for ConflictResolution {
    type V = ResolutionView;

    open spec fn view(&self) -> ResolutionView {
        ResolutionView {
            conflict_id: self.conflict_id@,
            strategy: self.strategy,
            resolved_data: match self.resolved_data {
                Some(p) => Some(p@),
                None => None,
            },
            resolved_by: self.resolved_by@,
            resolved_at: self.resolved_at@,
            notes: self.notes.deep_view(),
        }
    }
}

/// Whether two optional machine integers are equal.
pub fn opt_i32_eq(a: &Option<i32>, b: &Option<i32>) -> (r: bool)
    ensures
        r == (opt_int(*a) == opt_int(*b)),
{
    match (a, b) {
        (Some(x), Some(y)) => *x == *y,
        (None, None) => true,
        _ => false,
    }
}

/// Two divergent snapshots of one logical clipboard item, detected on one
/// device. Created once per detection; transitions pending to resolved exactly
/// once; deleted only by retention cleanup after resolution.
#[derive(Debug, Clone)]
pub struct SyncConflict {
    pub conflict_id: String,
    pub local_item: ClipboardPayload,
    pub remote_item: ClipboardPayload,
    pub conflict_type: ConflictType,
    pub detected_at: String,
    pub device_id: String,
    pub status: ConflictStatus,
    pub resolution: Option<ConflictResolution>,
}

/// Mathematical view of a [`SyncConflict`].
#[verifier::ext_equal]
pub ghost struct ConflictView {
    pub conflict_id: Seq<char>,
    pub local_item: PayloadView,
    pub remote_item: PayloadView,
    pub conflict_type: ConflictType,
    pub detected_at: Seq<char>,
    pub device_id: Seq<char>,
    pub status: ConflictStatus,
    pub resolution: Option<ResolutionView>,
}

impl View for SyncConflict {
    type V = ConflictView;

    open spec fn view(&self) -> ConflictView {
        ConflictView {
            conflict_id: self.conflict_id@,
            local_item: self.local_item@,
            remote_item: self.remote_item@,
            conflict_type: self.conflict_type,
            detected_at: self.detected_at@,
            device_id: self.device_id@,
            status: self.status,
            resolution: match self.resolution {
                Some(r) => Some(r@),
                None => None,
            },
        }
    }
}

impl ConflictResolution {
    /// A structural copy whose view equals this resolution's view.
    pub fn duplicate(&self) -> (r: ConflictResolution)
        ensures
            r@ == self@,
    {
        ConflictResolution {
            conflict_id: self.conflict_id.clone(),
            strategy: self.strategy,
            resolved_data: match &self.resolved_data {
                Some(p) => Some(p.duplicate()),
                None => None,
            },
            resolved_by: self.resolved_by.clone(),
            resolved_at: self.resolved_at.clone(),
            notes: clone_opt_string(&self.notes),
        }
    }
}

impl SyncConflict {
    /// A structural copy whose view equals this conflict's view.
    pub fn duplicate(&self) -> (r: SyncConflict)
        ensures
            r@ == self@,
    {
        SyncConflict {
            conflict_id: self.conflict_id.clone(),
            local_item: self.local_item.duplicate(),
            remote_item: self.remote_item.duplicate(),
            conflict_type: self.conflict_type,
            detected_at: self.detected_at.clone(),
            device_id: self.device_id.clone(),
            status: self.status,
            resolution: match &self.resolution {
                Some(r) => Some(r.duplicate()),
                None => None,
            },
        }
    }
}

// ==================== configuration, status, statistics ====================

/// Process-wide sync configuration; mutated only by explicit update.
#[derive(Debug, Clone)]
pub struct SyncConfig {
    pub enabled: bool,
    pub auto_sync: bool,
    /// Allow-list of payload kinds that participate in sync.
    pub sync_types: Vec<String>,
    pub exclude_devices: Vec<String>,
    pub image_compression: bool,
    /// Megabytes.
    pub max_image_size: i32,
    pub sync_on_wifi: bool,
    /// Percentage, 0 to 100.
    pub compression_quality: i32,
}

/// Mathematical view of a [`SyncConfig`].
#[verifier::ext_equal]
pub ghost struct ConfigView {
    pub enabled: bool,
    pub auto_sync: bool,
    pub sync_types: Seq<Seq<char>>,
    pub exclude_devices: Seq<Seq<char>>,
    pub image_compression: bool,
    pub max_image_size: int,
    pub sync_on_wifi: bool,
    pub compression_quality: int,
}

impl View for SyncConfig {
    type V = ConfigView;

    open spec fn view(&self) -> ConfigView {
        ConfigView {
            enabled: self.enabled,
            auto_sync: self.auto_sync,
            sync_types: self.sync_types.deep_view(),
            exclude_devices: self.exclude_devices.deep_view(),
            image_compression: self.image_compression,
            max_image_size: self.max_image_size as int,
            sync_on_wifi: self.sync_on_wifi,
            compression_quality: self.compression_quality as int,
        }
    }
}

/// The documented fallback configuration: sync enabled and automatic,
/// text / image / files allowed, no exclusions, compressed images up to 5 MB
/// at quality 80, not restricted to wifi.
pub open spec fn spec_default_config() -> ConfigView {
    ConfigView {
        enabled: true,
        auto_sync: true,
        sync_types: seq!["text"@, "image"@, "files"@],
        exclude_devices: Seq::empty(),
        image_compression: true,
        max_image_size: 5,
        sync_on_wifi: false,
        compression_quality: 80,
    }
}

impl Default for SyncConfig {
    /// The documented fallback configuration.
    fn default() -> (r: SyncConfig)
        ensures
            r@ == spec_default_config(),
    {
        let r = SyncConfig {
            enabled: true,
            auto_sync: true,
            sync_types: vec![
                String::from_str("text"),
                String::from_str("image"),
                String::from_str("files"),
            ],
            exclude_devices: Vec::new(),
            image_compression: true,
            max_image_size: 5,
            sync_on_wifi: false,
            compression_quality: 80,
        };
        proof {
            assert(r@.sync_types =~= spec_default_config().sync_types);
            assert(r@.exclude_devices =~= spec_default_config().exclude_devices);
            assert(r@ =~= spec_default_config());
        }
        r
    }
}

/// Aggregated sync status: persisted counters merged with the live queue
/// length and running flag.
#[derive(Debug, Clone)]
pub struct SyncStatus {
    pub status: String,
    pub last_sync_time: Option<String>,
    pub pending_items: i32,
    pub sync_errors: i32,
    pub total_synced: i32,
}

/// Cumulative synchronization statistics.
#[derive(Debug, Clone)]
pub struct SyncStats {
    pub total_synced: i32,
    /// Milliseconds.
    pub last_sync_duration: i32,
    pub sync_errors: i32,
    /// Bytes.
    pub data_usage: i64,
    pub conflicts_resolved: i32,
}

impl Default for SyncStats {
    fn default() -> (r: SyncStats)
        ensures
            r.total_synced == 0,
            r.last_sync_duration == 0,
            r.sync_errors == 0,
            r.data_usage == 0,
            r.conflicts_resolved == 0,
    {
        SyncStats {
            total_synced: 0,
            last_sync_duration: 0,
            sync_errors: 0,
            data_usage: 0,
            conflicts_resolved: 0,
        }
    }
}

// ==================== encryption ====================

/// A 256-bit symmetric key with its identity and provenance. Exactly one
/// master key (`key_id == "master"`); device keys use `key_id ==
/// "device_{device_id}"`.
#[derive(Debug, Clone)]
pub struct EncryptionKey {
    pub key_id: String,
    pub key_data: Vec<u8>,
    pub created_at: String,
    pub algorithm: String,
}

/// Mathematical view of an [`EncryptionKey`].
#[verifier::ext_equal]
pub ghost struct KeyView {
    pub key_id: Seq<char>,
    pub key_data: Seq<u8>,
    pub created_at: Seq<char>,
    pub algorithm: Seq<char>,
}

impl View for EncryptionKey {
    type V = KeyView;

    open spec fn view(&self) -> KeyView {
        KeyView {
            key_id: self.key_id@,
            key_data: self.key_data@,
            created_at: self.created_at@,
            algorithm: self.algorithm@,
        }
    }
}

impl EncryptionKey {
    /// A structural copy whose view equals this key's view.
    pub fn duplicate(&self) -> (r: EncryptionKey)
        ensures
            r@ == self@,
    {
        EncryptionKey {
            key_id: self.key_id.clone(),
            key_data: self.key_data.clone(),
            created_at: self.created_at.clone(),
            algorithm: self.algorithm.clone(),
        }
    }
}

/// A self-describing ciphertext envelope: decryption needs no context beyond
/// looking the key up by `key_id`. `data` and `nonce` are base64.
#[derive(Debug, Clone)]
pub struct EncryptedData {
    pub data: String,
    pub nonce: String,
    pub key_id: String,
    pub algorithm: String,
}

/// Mathematical view of an [`EncryptedData`].
#[verifier::ext_equal]
pub ghost struct EncryptedView {
    pub data: Seq<char>,
    pub nonce: Seq<char>,
    pub key_id: Seq<char>,
    pub algorithm: Seq<char>,
}

impl View for EncryptedData {
    type V = EncryptedView;

    open spec fn view(&self) -> EncryptedView {
        EncryptedView {
            data: self.data@,
            nonce: self.nonce@,
            key_id: self.key_id@,
            algorithm: self.algorithm@,
        }
    }
}

// ==================== realtime wire messages ====================

/// The tagged union carried as JSON frames on the realtime channel.
#[derive(Debug, Clone)]
pub enum WebSocketMessage {
    Auth { token: String },
    Ping,
    Pong,
    DataUpdate { item_id: String, device_id: String, timestamp: i64 },
    DeviceStatus { device_id: String, is_online: bool },
    Conflict { conflict_id: String, local_item: ClipboardPayload, remote_item: ClipboardPayload },
    SyncComplete { sync_id: String, items_count: i32 },
    Error { message: String, code: Option<i32> },
}

// ==================== account and device records ====================

/// Credentials handed to the login endpoint.
#[derive(Debug, Clone)]
pub struct LoginCredentials {
    pub email: String,
    pub password: String,
}

/// Data handed to the registration endpoint.
#[derive(Debug, Clone)]
pub struct RegisterData {
    pub email: String,
    pub password: String,
    pub device_name: String,
}

/// The authentication endpoints' reply.
#[derive(Debug, Clone)]
pub struct AuthResponse {
    pub success: bool,
    pub user_id: Option<String>,
    pub token: Option<String>,
    pub message: Option<String>,
}

/// One device of the account, as listed to the user.
#[derive(Debug, Clone)]
pub struct SyncDevice {
    pub id: String,
    pub name: String,
    pub platform: String,
    pub is_online: bool,
    pub last_active: String,
    pub is_current: bool,
}

// ==================== generic API envelopes ====================

/// A generic success / data / message envelope used by the remote API.
#[derive(Debug, Clone)]
pub struct ApiResponse<T> {
    pub success: bool,
    pub data: Option<T>,
    pub message: Option<String>,
    pub error_code: Option<String>,
}

/// A page of results from the remote API.
#[derive(Debug, Clone)]
pub struct PaginatedResponse<T> {
    pub items: Vec<T>,
    pub total: i32,
    pub page: i32,
    pub per_page: i32,
    pub has_more: bool,
}

} // verus!
