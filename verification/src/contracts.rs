//! Versioned, host-safe data transfer objects shared by the host and the UI.
//!
//! These values cross the trusted host/UI boundary. They carry opaque
//! identifiers and display-safe metadata only: filesystem paths, process
//! handles and runtime protocol frames are not represented here.
use vstd::prelude::*;
use crate::json::JsonValue;

verus! {

/// Opaque project identifier.
#[derive(Clone, Debug, PartialEq, Eq, Hash)]
pub struct ProjectId(pub String);

/// Opaque session identifier.
#[derive(Clone, Debug, PartialEq, Eq, Hash)]
pub struct SessionId(pub String);

/// Opaque runtime identifier.
#[derive(Clone, Debug, PartialEq, Eq, Hash)]
pub struct RuntimeId(pub String);

/// Opaque session entry identifier.
#[derive(Clone, Debug, PartialEq, Eq, Hash)]
pub struct EntryId(pub String);

/// Opaque timeline block identifier.
#[derive(Clone, Debug, PartialEq, Eq, Hash)]
pub struct BlockId(pub String);

/// Opaque page cursor.
#[derive(Clone, Debug, PartialEq, Eq, Hash)]
pub struct PageCursor(pub String);

impl ProjectId {
    pub fn new(value: String) -> (r: Self)
        ensures
            r.0@ == value@,
    {
        ProjectId(value)
    }

    pub fn as_str(&self) -> (r: &str)
        ensures
            r@ == self.0@,
    {
        self.0.as_str()
    }
}

impl SessionId {
    pub fn new(value: String) -> (r: Self)
        ensures
            r.0@ == value@,
    {
        SessionId(value)
    }

    pub fn as_str(&self) -> (r: &str)
        ensures
            r@ == self.0@,
    {
        self.0.as_str()
    }
}

impl RuntimeId {
    pub fn new(value: String) -> (r: Self)
        ensures
            r.0@ == value@,
    {
        RuntimeId(value)
    }

    pub fn as_str(&self) -> (r: &str)
        ensures
            r@ == self.0@,
    {
        self.0.as_str()
    }
}

impl EntryId {
    pub fn new(value: String) -> (r: Self)
        ensures
            r.0@ == value@,
    {
        EntryId(value)
    }

    pub fn as_str(&self) -> (r: &str)
        ensures
            r@ == self.0@,
    {
        self.0.as_str()
    }
}

impl BlockId {
    pub fn new(value: String) -> (r: Self)
        ensures
            r.0@ == value@,
    {
        BlockId(value)
    }

    pub fn as_str(&self) -> (r: &str)
        ensures
            r@ == self.0@,
    {
        self.0.as_str()
    }
}

impl PageCursor {
    pub fn new(value: String) -> (r: Self)
        ensures
            r.0@ == value@,
    {
        PageCursor(value)
    }

    pub fn as_str(&self) -> (r: &str)
        ensures
            r@ == self.0@,
    {
        self.0.as_str()
    }
}

/// A monotonically increasing, host-assigned runtime revision.
#[derive(Clone, Copy, Debug, PartialEq, Eq, Structural, Hash)]
pub struct Revision(pub u64);

#[derive(Clone, Copy, Debug, PartialEq, Eq, Structural)]
pub enum RevisionError {
    /// The revision cannot advance past its maximum value.
    Overflow,
}

impl Revision {
    /// The first revision.
    pub fn zero() -> (r: Revision)
        ensures
            r.0 == 0,
    {
        Revision(0)
    }

    pub fn get(self) -> (r: u64)
        ensures
            r == self.0,
    {
        self.0
    }

    /// The following revision, or `Overflow` at the maximum value.
    pub fn next(self) -> (r: Result<Revision, RevisionError>)
        ensures
            self.0 < u64::MAX ==> r == Ok::<Revision, RevisionError>(Revision((self.0 + 1) as u64)),
            self.0 == u64::MAX ==> r == Err::<Revision, RevisionError>(RevisionError::Overflow),
    {
        match self.0.checked_add(1) {
            Some(value) => Ok(Revision(value)),
            None => Err(RevisionError::Overflow),
        }
    }
}

impl RevisionError {
    /// The display message of the error.
    pub fn message(&self) -> (r: &'static str)
        ensures
            r@ == "revision cannot advance past its maximum value"@,
    {
        proof {
            reveal_strlit("revision cannot advance past its maximum value");
        }
        "revision cannot advance past its maximum value"
    }
}

#[derive(Clone, Copy, Debug, PartialEq, Eq, Structural)]
pub enum ProjectTrustState {
    Unknown,
    Trusted,
    Restricted,
}

impl Default for ProjectTrustState {
    fn default() -> (r: Self)
        ensures
            r == ProjectTrustState::Unknown,
    {
        ProjectTrustState::Unknown
    }
}

#[derive(Clone, Debug, PartialEq, Eq)]
pub struct ProjectSummary {
    pub id: ProjectId,
    pub name: String,
    pub trust_state: ProjectTrustState,
    pub missing: bool,
    pub last_opened_at: Option<String>,
}

#[derive(Clone, Copy, Debug, PartialEq, Eq, Structural)]
pub enum SessionTitleSource {
    PiName,
    FirstUserMessage,
    DateId,
    UiAlias,
}

impl Default for SessionTitleSource {
    fn default() -> (r: Self)
        ensures
            r == SessionTitleSource::DateId,
    {
        SessionTitleSource::DateId
    }
}

#[derive(Clone, Copy, Debug, PartialEq, Eq, Structural)]
pub enum SessionParseState {
    Healthy,
    Partial,
    Unsupported,
    Corrupt,
}

impl Default for SessionParseState {
    fn default() -> (r: Self)
        ensures
            r == SessionParseState::Partial,
    {
        SessionParseState::Partial
    }
}

#[derive(Clone, Debug, PartialEq, Eq)]
pub struct ModelRef {
    pub provider: String,
    pub id: String,
}

#[derive(Clone, Debug, PartialEq, Eq)]
pub struct ModelDescriptor {
    pub provider: String,
    pub id: String,
    pub label: Option<String>,
    pub supports_images: Option<bool>,
    pub context_window: Option<u64>,
    pub thinking_levels: Option<Vec<String>>,
    pub unavailable_reason: Option<String>,
}

#[derive(Clone, Debug, PartialEq, Eq)]
pub struct SessionSummary {
    pub id: SessionId,
    pub project_id: Option<ProjectId>,
    pub title: String,
    pub title_source: SessionTitleSource,
    pub created_at: Option<String>,
    pub updated_at: Option<String>,
    pub preview: Option<String>,
    pub entry_count: u64,
    pub branch_count: Option<u64>,
    pub parse_state: SessionParseState,
    pub runtime_state: Option<RuntimeState>,
    pub model: Option<ModelRef>,
}

/// Rebuildable scanner/index metadata. File locations are deliberately absent.
#[derive(Clone, Debug, PartialEq, Eq)]
pub struct SessionProjection {
    pub id: SessionId,
    pub project_id: Option<ProjectId>,
    pub pi_session_id: Option<String>,
    pub name: Option<String>,
    pub title_source: SessionTitleSource,
    pub created_at: Option<String>,
    pub updated_at: Option<String>,
    pub first_user_preview: Option<String>,
    pub last_message_preview: Option<String>,
    pub entry_count: u64,
    pub branch_count: Option<u64>,
    pub current_leaf_id: Option<EntryId>,
    pub model: Option<ModelRef>,
    pub parse_state: SessionParseState,
    /// Opaque content fingerprint, never a filesystem location.
    pub file_revision: String,
}

#[derive(Clone, Copy, Debug, PartialEq, Eq, Structural)]
pub enum RuntimeState {
    Dormant,
    Starting,
    Ready,
    Running,
    Recovering,
    Stopping,
    Failed,
}

impl Default for RuntimeState {
    fn default() -> (r: Self)
        ensures
            r == RuntimeState::Dormant,
    {
        RuntimeState::Dormant
    }
}

#[derive(Clone, Copy, Debug, PartialEq, Eq, Structural)]
pub enum BlockStatus {
    Pending,
    Streaming,
    Complete,
    Failed,
    Interrupted,
}

impl Default for BlockStatus {
    fn default() -> (r: Self)
        ensures
            r == BlockStatus::Pending,
    {
        BlockStatus::Pending
    }
}

#[derive(Clone, Copy, Debug, PartialEq, Eq, Structural)]
pub enum TimelineBlockKind {
    User,
    Assistant,
    Thinking,
    Tool,
    Custom,
    Error,
    Compaction,
}

impl Default for TimelineBlockKind {
    fn default() -> (r: Self)
        ensures
            r == TimelineBlockKind::Custom,
    {
        TimelineBlockKind::Custom
    }
}

#[derive(Clone, Debug, PartialEq, Eq)]
pub struct TimelineSource {
    pub session_id: SessionId,
    pub entry_id: Option<EntryId>,
    pub extension_id: Option<String>,
    pub entry_type: Option<String>,
}

/// A normalized, renderable block. `content` is host-normalized JSON.
#[derive(Debug, PartialEq)]
pub struct TimelineBlock {
    pub id: BlockId,
    pub parent_id: Option<BlockId>,
    pub kind: TimelineBlockKind,
    pub status: BlockStatus,
    pub created_at: Option<String>,
    pub source: TimelineSource,
    pub content: JsonValue,
}

impl Default for TimelineBlock {
    fn default() -> (r: Self)
        ensures
            r.id.0@.len() == 0,
            r.parent_id is None,
            r.kind == TimelineBlockKind::Custom,
            r.status == BlockStatus::Pending,
            r.created_at is None,
            r.source.session_id.0@.len() == 0,
            r.source.entry_id is None,
            r.source.extension_id is None,
            r.source.entry_type is None,
            r.content == JsonValue::Null,
    {
        TimelineBlock {
            id: BlockId(String::new()),
            parent_id: None,
            kind: TimelineBlockKind::Custom,
            status: BlockStatus::Pending,
            created_at: None,
            source: TimelineSource {
                session_id: SessionId(String::new()),
                entry_id: None,
                extension_id: None,
                entry_type: None,
            },
            content: JsonValue::Null,
        }
    }
}

#[derive(Debug, PartialEq)]
pub struct TimelinePage {
    pub session_id: SessionId,
    pub blocks: Vec<TimelineBlock>,
    /// Opaque content fingerprint used to detect stale cursors.
    pub file_revision: String,
    pub older_cursor: Option<PageCursor>,
    pub newer_cursor: Option<PageCursor>,
    pub stale_cursor: bool,
}

/// Read-only branch-tree projection. It intentionally has no navigation command.
#[derive(Clone, Debug, PartialEq, Eq)]
pub struct ReadOnlySessionTree {
    pub session_id: SessionId,
    pub nodes: Vec<SessionTreeNode>,
    pub current_leaf_id: Option<EntryId>,
}

#[derive(Clone, Debug, PartialEq, Eq)]
pub struct SessionTreeNode {
    pub entry_id: EntryId,
    pub parent_id: Option<EntryId>,
    pub role_or_type: String,
    pub created_at: Option<String>,
    pub preview: Option<String>,
    pub children: Vec<EntryId>,
    pub is_current_path: bool,
}

/// The role shown for a tree node whose entry is not known.
pub fn unknown_role_or_type() -> (r: String)
    ensures
        r@ == "unknown"@,
{
    String::from_str("unknown")
}

/// A capability that must never be advertised as supported by the host.
#[derive(Clone, Copy, Debug, PartialEq, Eq, Structural)]
pub struct DisabledCapability;

impl DisabledCapability {
    pub fn is_supported(self) -> (r: bool)
        ensures
            !r,
    {
        false
    }
}

/// The known subset of the versioned runtime capability contract.
#[derive(Clone, Debug, PartialEq, Eq)]
pub struct RuntimeCapabilities {
    pub rpc: bool,
    pub images: bool,
    pub models_list: bool,
    pub models_switch: bool,
    pub thinking_set: bool,
    pub queue_set_mode: bool,
    pub session_switch: bool,
    pub session_new: bool,
    pub session_rename: bool,
    pub session_export: bool,
    pub session_fork: bool,
    pub session_clone: bool,
    pub session_tree_read: bool,
    pub session_tree_navigate: bool,
    pub session_shutdown: bool,
    pub auth_headless: bool,
    pub ui_standard_dialogs: bool,
    pub ui_custom_tui: DisabledCapability,
}

impl RuntimeCapabilities {
    /// No capability is advertised.
    pub open spec fn none_supported(self) -> bool {
        &&& !self.rpc
        &&& !self.images
        &&& !self.models_list
        &&& !self.models_switch
        &&& !self.thinking_set
        &&& !self.queue_set_mode
        &&& !self.session_switch
        &&& !self.session_new
        &&& !self.session_rename
        &&& !self.session_export
        &&& !self.session_fork
        &&& !self.session_clone
        &&& !self.session_tree_read
        &&& !self.session_tree_navigate
        &&& !self.session_shutdown
        &&& !self.auth_headless
        &&& !self.ui_standard_dialogs
    }
}

impl Default for RuntimeCapabilities {
    fn default() -> (r: Self)
        ensures
            r.none_supported(),
    {
        RuntimeCapabilities {
            rpc: false,
            images: false,
            models_list: false,
            models_switch: false,
            thinking_set: false,
            queue_set_mode: false,
            session_switch: false,
            session_new: false,
            session_rename: false,
            session_export: false,
            session_fork: false,
            session_clone: false,
            session_tree_read: false,
            session_tree_navigate: false,
            session_shutdown: false,
            auth_headless: false,
            ui_standard_dialogs: false,
            ui_custom_tui: DisabledCapability,
        }
    }
}

#[derive(Clone, Copy, Debug, PartialEq, Eq, Structural)]
pub enum QueueMode {
    Steer,
    FollowUp,
}

impl Default for QueueMode {
    fn default() -> (r: Self)
        ensures
            r == QueueMode::FollowUp,
    {
        QueueMode::FollowUp
    }
}

#[derive(Debug, PartialEq)]
pub struct RuntimeSnapshot {
    pub runtime_id: RuntimeId,
    pub project_id: ProjectId,
    pub session_id: Option<SessionId>,
    pub state: RuntimeState,
    pub revision: Revision,
    pub capabilities: RuntimeCapabilities,
    pub current_model: Option<ModelRef>,
    pub available_models: Vec<ModelDescriptor>,
    pub thinking_level: Option<String>,
    pub thinking_levels: Option<Vec<String>>,
    pub queue_mode: Option<QueueMode>,
    pub queued_count: u64,
    pub blocks: Vec<TimelineBlock>,
}

impl Default for RuntimeSnapshot {
    fn default() -> (r: Self)
        ensures
            r.runtime_id.0@.len() == 0,
            r.project_id.0@.len() == 0,
            r.session_id is None,
            r.state == RuntimeState::Dormant,
            r.revision.0 == 0,
            r.capabilities.none_supported(),
            r.current_model is None,
            r.available_models@.len() == 0,
            r.thinking_level is None,
            r.thinking_levels is None,
            r.queue_mode is None,
            r.queued_count == 0,
            r.blocks@.len() == 0,
    {
        RuntimeSnapshot {
            runtime_id: RuntimeId(String::new()),
            project_id: ProjectId(String::new()),
            session_id: None,
            state: RuntimeState::Dormant,
            revision: Revision::zero(),
            capabilities: RuntimeCapabilities::default(),
            current_model: None,
            available_models: Vec::new(),
            thinking_level: None,
            thinking_levels: None,
            queue_mode: None,
            queued_count: 0,
            blocks: Vec::new(),
        }
    }
}

#[derive(Clone, Debug, PartialEq, Eq)]
pub struct RuntimeStateEvent {
    pub runtime_id: RuntimeId,
    pub project_id: ProjectId,
    pub session_id: Option<SessionId>,
    pub state: RuntimeState,
    pub previous_state: Option<RuntimeState>,
    pub reason_code: Option<String>,
    /// A redacted, display-safe description.
    pub safe_summary: Option<String>,
}

/// Runtime-only host events needed by the UI.
#[derive(Debug, PartialEq)]
pub enum RuntimeEvent {
    State(RuntimeStateEvent),
    Snapshot(RuntimeSnapshot),
}

#[derive(Clone, Copy, Debug, PartialEq, Eq, Structural)]
pub enum HostErrorCode {
    InvalidArgument,
    NotFound,
    NotTrusted,
    NotSupported,
    PermissionDenied,
    Conflict,
    RuntimeNotReady,
    RuntimeFailed,
    ProtocolError,
    Timeout,
    IoError,
    InternalError,
}

impl Default for HostErrorCode {
    fn default() -> (r: Self)
        ensures
            r == HostErrorCode::InternalError,
    {
        HostErrorCode::InternalError
    }
}

/// The protocol spelling of each error code.
pub open spec fn host_error_code_name(code: HostErrorCode) -> Seq<char> {
    match code {
        HostErrorCode::InvalidArgument => "INVALID_ARGUMENT"@,
        HostErrorCode::NotFound => "NOT_FOUND"@,
        HostErrorCode::NotTrusted => "NOT_TRUSTED"@,
        HostErrorCode::NotSupported => "NOT_SUPPORTED"@,
        HostErrorCode::PermissionDenied => "PERMISSION_DENIED"@,
        HostErrorCode::Conflict => "CONFLICT"@,
        HostErrorCode::RuntimeNotReady => "RUNTIME_NOT_READY"@,
        HostErrorCode::RuntimeFailed => "RUNTIME_FAILED"@,
        HostErrorCode::ProtocolError => "PROTOCOL_ERROR"@,
        HostErrorCode::Timeout => "TIMEOUT"@,
        HostErrorCode::IoError => "IO_ERROR"@,
        HostErrorCode::InternalError => "INTERNAL_ERROR"@,
    }
}

impl HostErrorCode {
    /// The protocol spelling of the code.
    pub fn protocol_name(self) -> (r: &'static str)
        ensures
            r@ == host_error_code_name(self),
    {
        match self {
            HostErrorCode::InvalidArgument => "INVALID_ARGUMENT",
            HostErrorCode::NotFound => "NOT_FOUND",
            HostErrorCode::NotTrusted => "NOT_TRUSTED",
            HostErrorCode::NotSupported => "NOT_SUPPORTED",
            HostErrorCode::PermissionDenied => "PERMISSION_DENIED",
            HostErrorCode::Conflict => "CONFLICT",
            HostErrorCode::RuntimeNotReady => "RUNTIME_NOT_READY",
            HostErrorCode::RuntimeFailed => "RUNTIME_FAILED",
            HostErrorCode::ProtocolError => "PROTOCOL_ERROR",
            HostErrorCode::Timeout => "TIMEOUT",
            HostErrorCode::IoError => "IO_ERROR",
            HostErrorCode::InternalError => "INTERNAL_ERROR",
        }
    }
}

/// A display-safe host error.
#[derive(Clone, Debug, PartialEq, Eq)]
pub struct HostError {
    pub code: HostErrorCode,
    pub message: String,
    pub recoverable: bool,
}

/// The message of a host error that carries no message of its own.
pub fn default_host_error_message() -> (r: String)
    ensures
        r@ == "An internal host error occurred."@,
{
    String::from_str("An internal host error occurred.")
}

impl Default for HostError {
    fn default() -> (r: Self)
        ensures
            r.code == HostErrorCode::InternalError,
            r.message@ == "An internal host error occurred."@,
            !r.recoverable,
    {
        HostError {
            code: HostErrorCode::InternalError,
            message: default_host_error_message(),
            recoverable: false,
        }
    }
}

} // verus!
