//! The desktop command layer: typed errors with fixed user-facing text,
//! argument validation, and the display-safe values that cross to the UI.
use vstd::prelude::*;
use crate::catalog::{ProjectSummary, SessionSummary, TitleSource, TrustState};
use crate::contracts::{RuntimeEvent, RuntimeState};
use crate::scan::{sha256, sha256_hex_of};
use vstd::utf8::encode_utf8;
use crate::host_state::{
    CatalogFreshness, CatalogRefreshStatus, CatalogRefreshStore, RefreshEvent, SessionRevisionAdmission, TimelineCursorRecord,
    TimelineCursorStore, refresh_returned, refresh_step,
};
use crate::prefs::{
    ChatWidthPreference, DensityPreference, FontSizePreference, Preferences,
    ReducedMotionPreference, ThemePreference, chat_width_from_name, density_from_name,
    font_size_from_name, motion_from_name, theme_from_name, chat_width_name, density_name,
    font_size_name, motion_name, theme_name,
};
use crate::report::{
    BlockView, GenericBlockKind, GenericBlockStatus, GenericTimelineBlock, ParseState, ScanReport,
    SessionTreeNode, TreeNodeView, clone_opt, strings_view, tree_view,
};
use crate::report_ops::{contains_str, current_path, current_path_ids, slice_before, TIMELINE_SLICE_MAX_LIMIT};
use crate::report::blocks_view;
use crate::text::{
    str_eq, opt_view, i64_to_decimal, signed_decimal, str_chars, string_from_range, is_whitespace,
    is_whitespace_char, is_ascii_alnum, is_ascii_alnum_char, is_control, is_control_char,
    drop_control_chars, drop_controls, take_chars, push_str,
};
use crate::redact::{redact_display_text, redact_generic_paths};

verus! {

broadcast use vstd::slice::group_slice_axioms;

/// A command failure as the UI sees it: a stable code and a fixed message
/// that never carries a path or raw error text.
#[derive(Debug)]
pub struct ApiError {
    pub code: &'static str,
    pub message: &'static str,
    pub recoverable: bool,
}

/// `e` is the error for a request that is not valid.
pub open spec fn is_invalid_error(e: ApiError) -> bool {
    &&& e.code@ == "INVALID_ARGUMENT"@
    &&& e.message@ == "The request is not valid."@
    &&& e.recoverable
}

/// `e` is the error for a local operation that could not complete.
pub open spec fn is_io_error(e: ApiError) -> bool {
    &&& e.code@ == "IO_ERROR"@
    &&& e.message@ == "The local read-only operation could not complete."@
    &&& e.recoverable
}

/// `e` is the error for a runtime that could not transition safely.
pub open spec fn is_runtime_error(e: ApiError) -> bool {
    &&& e.code@ == "RUNTIME_FAILED"@
    &&& e.message@ == "The deterministic runtime could not transition safely."@
    &&& e.recoverable
}

impl ApiError {
    pub fn invalid() -> (r: Self)
        ensures
            is_invalid_error(r),
    {
        ApiError { code: "INVALID_ARGUMENT", message: "The request is not valid.", recoverable: true }
    }

    pub fn not_found() -> (r: Self)
        ensures
            r.code@ == "NOT_FOUND"@,
            r.message@ == "The requested local record is unavailable."@,
            r.recoverable,
    {
        ApiError {
            code: "NOT_FOUND",
            message: "The requested local record is unavailable.",
            recoverable: true,
        }
    }

    pub fn not_trusted() -> (r: Self)
        ensures
            r.code@ == "NOT_TRUSTED"@,
            r.message@ == "Trust this project before starting a runtime."@,
            r.recoverable,
    {
        ApiError {
            code: "NOT_TRUSTED",
            message: "Trust this project before starting a runtime.",
            recoverable: true,
        }
    }

    pub fn conflict() -> (r: Self)
        ensures
            r.code@ == "CONFLICT"@,
            r.message@ == "This project directory changed. Re-add it and confirm trust again before loading local extension resources."@,
            r.recoverable,
    {
        ApiError {
            code: "CONFLICT",
            message: "This project directory changed. Re-add it and confirm trust again before loading local extension resources.",
            recoverable: true,
        }
    }

    pub fn session_conflict() -> (r: Self)
        ensures
            r.code@ == "CONFLICT"@,
            r.message@ == "This Pi session changed outside PiUI. Reload it before continuing; PiUI will not merge session JSONL."@,
            r.recoverable,
    {
        ApiError {
            code: "CONFLICT",
            message: "This Pi session changed outside PiUI. Reload it before continuing; PiUI will not merge session JSONL.",
            recoverable: true,
        }
    }

    pub fn project_unavailable() -> (r: Self)
        ensures
            r.code@ == "PROJECT_UNAVAILABLE"@,
            r.message@ == "This project folder is currently unavailable. Its cached read-only history remains local."@,
            r.recoverable,
    {
        ApiError {
            code: "PROJECT_UNAVAILABLE",
            message: "This project folder is currently unavailable. Its cached read-only history remains local.",
            recoverable: true,
        }
    }

    pub fn safe_mode() -> (r: Self)
        ensures
            r.code@ == "NOT_SUPPORTED"@,
            r.message@ == "Runtime actions are disabled while PiUI starts in safe mode."@,
            r.recoverable,
    {
        ApiError {
            code: "NOT_SUPPORTED",
            message: "Runtime actions are disabled while PiUI starts in safe mode.",
            recoverable: true,
        }
    }

    pub fn runtime_busy() -> (r: Self)
        ensures
            r.code@ == "RUNTIME_FAILED"@,
            r.message@ == "A foundation runtime is already active."@,
            r.recoverable,
    {
        ApiError {
            code: "RUNTIME_FAILED",
            message: "A foundation runtime is already active.",
            recoverable: true,
        }
    }

    pub fn runtime() -> (r: Self)
        ensures
            is_runtime_error(r),
    {
        ApiError {
            code: "RUNTIME_FAILED",
            message: "The deterministic runtime could not transition safely.",
            recoverable: true,
        }
    }

    pub fn pi_not_found() -> (r: Self)
        ensures
            r.code@ == "RUNTIME_FAILED"@,
            r.message@ == "Pi could not be found on this machine. Install it or set the PIUI_PI_CLI environment variable, then start the runtime again."@,
            r.recoverable,
    {
        ApiError {
            code: "RUNTIME_FAILED",
            message: "Pi could not be found on this machine. Install it or set the PIUI_PI_CLI environment variable, then start the runtime again.",
            recoverable: true,
        }
    }

    pub fn runtime_spawn() -> (r: Self)
        ensures
            r.code@ == "RUNTIME_FAILED"@,
            r.message@ == "Pi could not start. Open diagnostics for a safe status code."@,
            r.recoverable,
    {
        ApiError {
            code: "RUNTIME_FAILED",
            message: "Pi could not start. Open diagnostics for a safe status code.",
            recoverable: true,
        }
    }

    pub fn runtime_timeout() -> (r: Self)
        ensures
            r.code@ == "RUNTIME_FAILED"@,
            r.message@ == "Pi did not respond in time. You can stop and retry."@,
            r.recoverable,
    {
        ApiError {
            code: "RUNTIME_FAILED",
            message: "Pi did not respond in time. You can stop and retry.",
            recoverable: true,
        }
    }

    pub fn runtime_rejected() -> (r: Self)
        ensures
            r.code@ == "RUNTIME_FAILED"@,
            r.message@ == "Pi rejected the command. See diagnostics for a safe status code."@,
            r.recoverable,
    {
        ApiError {
            code: "RUNTIME_FAILED",
            message: "Pi rejected the command. See diagnostics for a safe status code.",
            recoverable: true,
        }
    }

    pub fn runtime_gone() -> (r: Self)
        ensures
            r.code@ == "RUNTIME_FAILED"@,
            r.message@ == "The Pi runtime is no longer active. Restart it to continue."@,
            r.recoverable,
    {
        ApiError {
            code: "RUNTIME_FAILED",
            message: "The Pi runtime is no longer active. Restart it to continue.",
            recoverable: true,
        }
    }

    pub fn runtime_protocol() -> (r: Self)
        ensures
            r.code@ == "RUNTIME_FAILED"@,
            r.message@ == "Pi reported an unexpected protocol error."@,
            r.recoverable,
    {
        ApiError {
            code: "RUNTIME_FAILED",
            message: "Pi reported an unexpected protocol error.",
            recoverable: true,
        }
    }

    pub fn io() -> (r: Self)
        ensures
            is_io_error(r),
    {
        ApiError {
            code: "IO_ERROR",
            message: "The local read-only operation could not complete.",
            recoverable: true,
        }
    }

    pub fn internal() -> (r: Self)
        ensures
            r.code@ == "INTERNAL_ERROR"@,
            r.message@ == "The local host is temporarily unavailable."@,
            r.recoverable,
    {
        ApiError {
            code: "INTERNAL_ERROR",
            message: "The local host is temporarily unavailable.",
            recoverable: true,
        }
    }
}

// ---------------------------------------------------------------------------
// Appearance preferences

/// The font size a request asks for: the named size, or the stored one when
/// the request names none.
pub open spec fn font_size_request(value: Option<Seq<char>>, existing: FontSizePreference) -> Option<FontSizePreference> {
    match value {
        None => Some(existing),
        Some(s) => font_size_from_name(s),
    }
}

/// The chat width a request asks for: the named width, or the stored one when
/// the request names none.
pub open spec fn chat_width_request(value: Option<Seq<char>>, existing: ChatWidthPreference) -> Option<ChatWidthPreference> {
    match value {
        None => Some(existing),
        Some(s) => chat_width_from_name(s),
    }
}

pub open spec fn opt_str_view(o: Option<&str>) -> Option<Seq<char>> {
    match o {
        Some(s) => Some(s@),
        None => None,
    }
}

/// Parses a requested font size; a request without one keeps `existing`.
pub fn parse_font_size_preference(value: Option<&str>, existing: FontSizePreference) -> (r: Result<FontSizePreference, ApiError>)
    ensures
        match font_size_request(opt_str_view(value), existing) {
            Some(f) => r == Ok::<FontSizePreference, ApiError>(f),
            None => r is Err && is_invalid_error(r->Err_0),
        },
{
    match value {
        None => Ok(existing),
        Some(s) => match FontSizePreference::from_storage(s) {
            Some(f) => Ok(f),
            None => Err(ApiError::invalid()),
        },
    }
}

/// Parses a requested chat width; a request without one keeps `existing`.
pub fn parse_chat_width_preference(value: Option<&str>, existing: ChatWidthPreference) -> (r: Result<ChatWidthPreference, ApiError>)
    ensures
        match chat_width_request(opt_str_view(value), existing) {
            Some(w) => r == Ok::<ChatWidthPreference, ApiError>(w),
            None => r is Err && is_invalid_error(r->Err_0),
        },
{
    match value {
        None => Ok(existing),
        Some(s) => match ChatWidthPreference::from_storage(s) {
            Some(w) => Ok(w),
            None => Err(ApiError::invalid()),
        },
    }
}

/// The outcome of an appearance update. The three base choices are checked
/// first; then a failed read of the stored preferences (`existing` is
/// `None`) is an I/O failure; then the optional font size and chat width are
/// checked, each defaulting to its stored value.
pub enum PreferenceUpdate {
    Updated(Preferences),
    Invalid,
    Unreadable,
}

pub open spec fn preference_update_spec(
    theme: Seq<char>,
    density: Seq<char>,
    reduced_motion: Seq<char>,
    font_size: Option<Seq<char>>,
    chat_width: Option<Seq<char>>,
    existing: Option<Preferences>,
) -> PreferenceUpdate {
    if theme_from_name(theme) is None || density_from_name(density) is None
        || motion_from_name(reduced_motion) is None {
        PreferenceUpdate::Invalid
    } else {
        match existing {
            None => PreferenceUpdate::Unreadable,
            Some(stored) => match (
                font_size_request(font_size, stored.font_size),
                chat_width_request(chat_width, stored.chat_width),
            ) {
                (Some(f), Some(w)) => PreferenceUpdate::Updated(Preferences {
                    theme: theme_from_name(theme).unwrap(),
                    density: density_from_name(density).unwrap(),
                    reduced_motion: motion_from_name(reduced_motion).unwrap(),
                    font_size: f,
                    chat_width: w,
                }),
                _ => PreferenceUpdate::Invalid,
            },
        }
    }
}

/// Resolves an appearance update against the stored preferences: the new
/// preferences to store, or the error to answer. `existing` is `None` when
/// the stored preferences could not be read.
pub fn update_preference_values(
    theme: &str,
    density: &str,
    reduced_motion: &str,
    font_size: Option<&str>,
    chat_width: Option<&str>,
    existing: Option<Preferences>,
) -> (r: Result<Preferences, ApiError>)
    ensures
        match preference_update_spec(theme@, density@, reduced_motion@, opt_str_view(font_size), opt_str_view(chat_width), existing) {
            PreferenceUpdate::Updated(p) => r == Ok::<Preferences, ApiError>(p),
            PreferenceUpdate::Invalid => r is Err && is_invalid_error(r->Err_0),
            PreferenceUpdate::Unreadable => r is Err && is_io_error(r->Err_0),
        },
{
    let theme = match ThemePreference::from_storage(theme) {
        Some(t) => t,
        None => return Err(ApiError::invalid()),
    };
    let density = match DensityPreference::from_storage(density) {
        Some(d) => d,
        None => return Err(ApiError::invalid()),
    };
    let reduced_motion = match ReducedMotionPreference::from_storage(reduced_motion) {
        Some(m) => m,
        None => return Err(ApiError::invalid()),
    };
    let stored = match existing {
        Some(p) => p,
        None => return Err(ApiError::io()),
    };
    let font_size = match parse_font_size_preference(font_size, stored.font_size) {
        Ok(f) => f,
        Err(e) => return Err(e),
    };
    let chat_width = match parse_chat_width_preference(chat_width, stored.chat_width) {
        Ok(w) => w,
        Err(e) => return Err(e),
    };
    Ok(Preferences { theme, density, reduced_motion, font_size, chat_width })
}

/// The appearance preferences as the UI names them.
#[derive(Debug, Clone)]
pub struct ApiPreferences {
    pub theme: &'static str,
    pub density: &'static str,
    pub reduced_motion: &'static str,
    pub font_size: &'static str,
    pub chat_width: &'static str,
}

pub struct ApiPreferencesView {
    pub theme: Seq<char>,
    pub density: Seq<char>,
    pub reduced_motion: Seq<char>,
    pub font_size: Seq<char>,
    pub chat_width: Seq<char>,
}

impl View for ApiPreferences {
    type V = ApiPreferencesView;

    open spec fn view(&self) -> ApiPreferencesView {
        ApiPreferencesView {
            theme: self.theme@,
            density: self.density@,
            reduced_motion: self.reduced_motion@,
            font_size: self.font_size@,
            chat_width: self.chat_width@,
        }
    }
}

pub open spec fn api_preferences_spec(p: Preferences) -> ApiPreferencesView {
    ApiPreferencesView {
        theme: theme_name(p.theme),
        density: density_name(p.density),
        reduced_motion: motion_name(p.reduced_motion),
        font_size: font_size_name(p.font_size),
        chat_width: chat_width_name(p.chat_width),
    }
}

impl ApiPreferences {
    /// Each preference by its stored name.
    pub fn from(value: Preferences) -> (r: Self)
        ensures
            r@ == api_preferences_spec(value),
    {
        ApiPreferences {
            theme: value.theme.storage_value(),
            density: value.density.storage_value(),
            reduced_motion: value.reduced_motion.storage_value(),
            font_size: value.font_size.storage_value(),
            chat_width: value.chat_width.storage_value(),
        }
    }
}

// ---------------------------------------------------------------------------
// Display names

pub open spec fn trust_state_name(t: TrustState) -> Seq<char> {
    match t {
        TrustState::Unknown => "unknown"@,
        TrustState::Trusted => "trusted"@,
        TrustState::Restricted => "restricted"@,
    }
}

pub fn trust_state(value: TrustState) -> (r: &'static str)
    ensures
        r@ == trust_state_name(value),
{
    match value {
        TrustState::Unknown => "unknown",
        TrustState::Trusted => "trusted",
        TrustState::Restricted => "restricted",
    }
}

pub open spec fn title_source_label(t: TitleSource) -> Seq<char> {
    match t {
        TitleSource::PiName => "pi-name"@,
        TitleSource::FirstUserMessage => "first-user-message"@,
        TitleSource::DateId => "date-id"@,
        TitleSource::UiAlias => "ui-alias"@,
    }
}

pub fn title_source(value: TitleSource) -> (r: &'static str)
    ensures
        r@ == title_source_label(value),
{
    match value {
        TitleSource::PiName => "pi-name",
        TitleSource::FirstUserMessage => "first-user-message",
        TitleSource::DateId => "date-id",
        TitleSource::UiAlias => "ui-alias",
    }
}

pub open spec fn parse_state_label(s: ParseState) -> Seq<char> {
    match s {
        ParseState::Healthy => "healthy"@,
        ParseState::Partial => "partial"@,
        ParseState::Unsupported => "unsupported"@,
        ParseState::Corrupt => "corrupt"@,
    }
}

pub fn parse_state(value: ParseState) -> (r: &'static str)
    ensures
        r@ == parse_state_label(value),
{
    match value {
        ParseState::Healthy => "healthy",
        ParseState::Partial => "partial",
        ParseState::Unsupported => "unsupported",
        ParseState::Corrupt => "corrupt",
    }
}

pub open spec fn freshness_label(f: CatalogFreshness) -> Seq<char> {
    match f {
        CatalogFreshness::Cached => "cached"@,
        CatalogFreshness::Refreshing => "refreshing"@,
        CatalogFreshness::Current => "current"@,
        CatalogFreshness::Degraded => "degraded"@,
    }
}

pub fn catalog_freshness_name(freshness: CatalogFreshness) -> (r: &'static str)
    ensures
        r@ == freshness_label(freshness),
{
    match freshness {
        CatalogFreshness::Cached => "cached",
        CatalogFreshness::Refreshing => "refreshing",
        CatalogFreshness::Current => "current",
        CatalogFreshness::Degraded => "degraded",
    }
}

/// The runtime's lifecycle state is the contract `RuntimeState`.
pub open spec fn lifecycle_label(s: RuntimeState) -> Seq<char> {
    match s {
        RuntimeState::Dormant => "dormant"@,
        RuntimeState::Starting => "starting"@,
        RuntimeState::Ready => "ready"@,
        RuntimeState::Running => "running"@,
        RuntimeState::Recovering => "recovering"@,
        RuntimeState::Stopping => "stopping"@,
        RuntimeState::Failed => "failed"@,
    }
}

pub fn runtime_state(value: RuntimeState) -> (r: &'static str)
    ensures
        r@ == lifecycle_label(value),
{
    lifecycle_name(value)
}

pub fn lifecycle_name(state: RuntimeState) -> (r: &'static str)
    ensures
        r@ == lifecycle_label(state),
{
    match state {
        RuntimeState::Dormant => "dormant",
        RuntimeState::Starting => "starting",
        RuntimeState::Ready => "ready",
        RuntimeState::Running => "running",
        RuntimeState::Recovering => "recovering",
        RuntimeState::Stopping => "stopping",
        RuntimeState::Failed => "failed",
    }
}

/// A runtime accepts commands only while ready or running.
pub fn runtime_state_is_usable(state: RuntimeState) -> (r: bool)
    ensures
        r == (state == RuntimeState::Ready || state == RuntimeState::Running),
{
    match state {
        RuntimeState::Ready | RuntimeState::Running => true,
        _ => false,
    }
}

// ---------------------------------------------------------------------------
// Catalog summaries

/// A registered project as the UI lists it.
#[derive(Debug, Clone)]
pub struct ApiProjectSummary {
    pub id: String,
    pub name: String,
    pub display_path: String,
    pub trust_state: &'static str,
    pub pinned: bool,
    pub missing: bool,
    pub last_opened_at: Option<String>,
}

impl ApiProjectSummary {
    /// The summary with its trust state named and its last-opened time in
    /// decimal seconds.
    pub fn from(value: ProjectSummary) -> (r: Self)
        ensures
            r.id@ == value.id@,
            r.name@ == value.name@,
            r.display_path@ == value.display_path@,
            r.trust_state@ == trust_state_name(value.trust_state),
            r.pinned == value.pinned,
            r.missing == value.missing,
            opt_view(r.last_opened_at) == match value.last_opened_at {
                Some(t) => Some(signed_decimal(t as int)),
                None => None::<Seq<char>>,
            },
    {
        let last_opened_at = match value.last_opened_at {
            Some(t) => Some(i64_to_decimal(t)),
            None => None,
        };
        ApiProjectSummary {
            id: value.id,
            name: value.name,
            display_path: value.display_path,
            trust_state: trust_state(value.trust_state),
            pinned: value.pinned,
            missing: value.missing,
            last_opened_at,
        }
    }
}

/// A session as the UI lists it.
#[derive(Debug, Clone)]
pub struct ApiSessionSummary {
    pub id: String,
    pub project_id: Option<String>,
    pub title: String,
    pub title_source: &'static str,
    pub created_at: Option<String>,
    pub updated_at: Option<String>,
    pub preview: Option<String>,
    pub entry_count: usize,
    pub branch_count: Option<usize>,
    pub parse_state: &'static str,
}

pub struct ApiSessionSummaryView {
    pub id: Seq<char>,
    pub project_id: Option<Seq<char>>,
    pub title: Seq<char>,
    pub title_source: Seq<char>,
    pub created_at: Option<Seq<char>>,
    pub updated_at: Option<Seq<char>>,
    pub preview: Option<Seq<char>>,
    pub entry_count: usize,
    pub branch_count: Option<usize>,
    pub parse_state: Seq<char>,
}

impl View for ApiSessionSummary {
    type V = ApiSessionSummaryView;

    open spec fn view(&self) -> ApiSessionSummaryView {
        ApiSessionSummaryView {
            id: self.id@,
            project_id: opt_view(self.project_id),
            title: self.title@,
            title_source: self.title_source@,
            created_at: opt_view(self.created_at),
            updated_at: opt_view(self.updated_at),
            preview: opt_view(self.preview),
            entry_count: self.entry_count,
            branch_count: self.branch_count,
            parse_state: self.parse_state@,
        }
    }
}

/// The UI summary of a session: title and preview with absolute paths
/// redacted, everything else as indexed.
pub open spec fn api_session_summary_spec(s: SessionSummary) -> ApiSessionSummaryView {
    ApiSessionSummaryView {
        id: s.id@,
        project_id: opt_view(s.project_id),
        title: redact_generic_paths(s.title@),
        title_source: title_source_label(s.title_source),
        created_at: opt_view(s.created_at),
        updated_at: opt_view(s.updated_at),
        preview: match s.preview {
            Some(p) => Some(redact_generic_paths(p@)),
            None => None,
        },
        entry_count: s.entry_count,
        branch_count: s.branch_count,
        parse_state: parse_state_label(s.parse_state),
    }
}

impl ApiSessionSummary {
    pub fn from(value: SessionSummary) -> (r: Self)
        ensures
            r@ == api_session_summary_spec(value),
    {
        let title = redact_display_text(value.title.as_str());
        let preview = match &value.preview {
            Some(p) => Some(redact_display_text(p.as_str())),
            None => None,
        };
        ApiSessionSummary {
            id: value.id,
            project_id: value.project_id,
            title,
            title_source: title_source(value.title_source),
            created_at: value.created_at,
            updated_at: value.updated_at,
            preview,
            entry_count: value.entry_count,
            branch_count: value.branch_count,
            parse_state: parse_state(value.parse_state),
        }
    }
}

/// The summary a catalog lists for `s`; the personal workspace's catalog
/// leaves out the host-owned project id.
pub open spec fn listed_summary(s: SessionSummary, hide_project_id: bool) -> ApiSessionSummaryView {
    let v = api_session_summary_spec(s);
    if hide_project_id {
        ApiSessionSummaryView { project_id: None, ..v }
    } else {
        v
    }
}

/// The UI summaries of `sessions`, in order.
pub fn api_session_summaries(sessions: Vec<SessionSummary>, hide_project_id: bool) -> (r: Vec<ApiSessionSummary>)
    ensures
        r@.len() == sessions@.len(),
        forall|i: int| 0 <= i < r@.len() ==> (#[trigger] r@[i])@ == listed_summary(sessions@[i], hide_project_id),
{
    let ghost input = sessions@;
    let mut out: Vec<ApiSessionSummary> = Vec::new();
    for session in it: sessions.into_iter()
        invariant
            it.seq() == input,
            out@.len() == it.index(),
            forall|i: int| 0 <= i < out@.len() ==> (#[trigger] out@[i])@ == listed_summary(input[i], hide_project_id),
    {
        let mut summary = ApiSessionSummary::from(session);
        if hide_project_id {
            summary.project_id = None;
        }
        out.push(summary);
    }
    out
}

// ---------------------------------------------------------------------------
// Timeline blocks

#[derive(Debug, Clone, Copy, PartialEq, Eq, Structural)]
pub enum ApiTimelineStatus {
    Complete,
    Streaming,
    Failed,
    Interrupted,
}

pub open spec fn block_status_spec(s: GenericBlockStatus) -> ApiTimelineStatus {
    match s {
        GenericBlockStatus::Complete => ApiTimelineStatus::Complete,
        GenericBlockStatus::Running => ApiTimelineStatus::Streaming,
        GenericBlockStatus::Failed => ApiTimelineStatus::Failed,
        GenericBlockStatus::Interrupted => ApiTimelineStatus::Interrupted,
    }
}

pub fn block_status(value: GenericBlockStatus) -> (r: ApiTimelineStatus)
    ensures
        r == block_status_spec(value),
{
    match value {
        GenericBlockStatus::Complete => ApiTimelineStatus::Complete,
        GenericBlockStatus::Running => ApiTimelineStatus::Streaming,
        GenericBlockStatus::Failed => ApiTimelineStatus::Failed,
        GenericBlockStatus::Interrupted => ApiTimelineStatus::Interrupted,
    }
}

/// The kind's name and its user-facing label.
pub open spec fn block_kind_spec(k: GenericBlockKind) -> (Seq<char>, Seq<char>) {
    match k {
        GenericBlockKind::User => ("user"@, "You"@),
        GenericBlockKind::Assistant => ("assistant"@, "Pi"@),
        GenericBlockKind::Thinking => ("thinking"@, "Reasoning"@),
        GenericBlockKind::Tool => ("tool"@, "Tool activity"@),
        GenericBlockKind::Custom => ("custom"@, "Extension message"@),
        GenericBlockKind::Compaction => ("compaction"@, "Context compacted"@),
        GenericBlockKind::Unknown => ("unknown"@, "Unrecognized session entry"@),
    }
}

pub fn block_kind(value: GenericBlockKind) -> (r: (&'static str, &'static str))
    ensures
        (r.0@, r.1@) == block_kind_spec(value),
{
    match value {
        GenericBlockKind::User => ("user", "You"),
        GenericBlockKind::Assistant => ("assistant", "Pi"),
        GenericBlockKind::Thinking => ("thinking", "Reasoning"),
        GenericBlockKind::Tool => ("tool", "Tool activity"),
        GenericBlockKind::Custom => ("custom", "Extension message"),
        GenericBlockKind::Compaction => ("compaction", "Context compacted"),
        GenericBlockKind::Unknown => ("unknown", "Unrecognized session entry"),
    }
}

/// The fixed summary shown for a block of kind `k` that has no text.
pub open spec fn safe_block_summary_spec(k: GenericBlockKind) -> Seq<char> {
    match k {
        GenericBlockKind::Thinking => "Reasoning entry retained in the read-only projection."@,
        GenericBlockKind::Tool => "Tool activity retained in the read-only projection."@,
        GenericBlockKind::Custom => "Extension entry is available through the generic fallback."@,
        GenericBlockKind::Compaction => "The session records a context compaction boundary."@,
        GenericBlockKind::Unknown => "An unsupported entry is retained through the generic fallback."@,
        GenericBlockKind::User | GenericBlockKind::Assistant => ""@,
    }
}

pub fn safe_block_summary(value: GenericBlockKind) -> (r: &'static str)
    ensures
        r@ == safe_block_summary_spec(value),
{
    match value {
        GenericBlockKind::Thinking => "Reasoning entry retained in the read-only projection.",
        GenericBlockKind::Tool => "Tool activity retained in the read-only projection.",
        GenericBlockKind::Custom => "Extension entry is available through the generic fallback.",
        GenericBlockKind::Compaction => "The session records a context compaction boundary.",
        GenericBlockKind::Unknown => "An unsupported entry is retained through the generic fallback.",
        GenericBlockKind::User | GenericBlockKind::Assistant => "",
    }
}

/// A timeline block as the UI renders it.
#[derive(Debug)]
pub struct ApiTimelineBlock {
    pub id: String,
    pub parent_id: Option<String>,
    pub kind: &'static str,
    pub created_at: Option<String>,
    pub text: Option<String>,
    pub label: &'static str,
    pub safe_summary: Option<String>,
    pub title: Option<String>,
    pub tool_name: Option<String>,
    pub collapsible: bool,
    pub truncated: bool,
    pub fallback: bool,
    pub status: ApiTimelineStatus,
}

pub struct ApiTimelineBlockView {
    pub id: Seq<char>,
    pub parent_id: Option<Seq<char>>,
    pub kind: Seq<char>,
    pub created_at: Option<Seq<char>>,
    pub text: Option<Seq<char>>,
    pub label: Seq<char>,
    pub safe_summary: Option<Seq<char>>,
    pub title: Option<Seq<char>>,
    pub tool_name: Option<Seq<char>>,
    pub collapsible: bool,
    pub truncated: bool,
    pub fallback: bool,
    pub status: ApiTimelineStatus,
}

impl View for ApiTimelineBlock {
    type V = ApiTimelineBlockView;

    open spec fn view(&self) -> ApiTimelineBlockView {
        ApiTimelineBlockView {
            id: self.id@,
            parent_id: opt_view(self.parent_id),
            kind: self.kind@,
            created_at: opt_view(self.created_at),
            text: opt_view(self.text),
            label: self.label@,
            safe_summary: opt_view(self.safe_summary),
            title: opt_view(self.title),
            tool_name: opt_view(self.tool_name),
            collapsible: self.collapsible,
            truncated: self.truncated,
            fallback: self.fallback,
            status: self.status,
        }
    }
}

/// A block without text gets a fixed summary: that earlier content was
/// omitted when it was truncated, else the kind's summary unless it is a
/// user or assistant message.
pub open spec fn block_summary_spec(b: BlockView) -> Option<Seq<char>> {
    if b.preview is None && b.truncated {
        Some("Earlier content was omitted by the bounded session projection."@)
    } else if b.preview is None && b.kind != GenericBlockKind::User && b.kind != GenericBlockKind::Assistant {
        Some(safe_block_summary_spec(b.kind))
    } else {
        None
    }
}

pub open spec fn api_block_spec(b: BlockView) -> ApiTimelineBlockView {
    ApiTimelineBlockView {
        id: b.id,
        parent_id: b.parent_id,
        kind: block_kind_spec(b.kind).0,
        created_at: b.created_at,
        text: b.preview,
        label: block_kind_spec(b.kind).1,
        safe_summary: block_summary_spec(b),
        title: b.title,
        tool_name: b.tool_name,
        collapsible: b.collapsible,
        truncated: b.truncated,
        fallback: b.fallback,
        status: block_status_spec(b.status),
    }
}

impl ApiTimelineBlock {
    pub fn from(value: &GenericTimelineBlock) -> (r: Self)
        ensures
            r@ == api_block_spec(value@),
    {
        let (kind, label) = block_kind(value.kind);
        let text = clone_opt(&value.preview);
        let has_text = text.is_some();
        let is_message = match value.kind {
            GenericBlockKind::User | GenericBlockKind::Assistant => true,
            _ => false,
        };
        let safe_summary = if !has_text && value.truncated {
            Some("Earlier content was omitted by the bounded session projection.".to_owned())
        } else if !has_text && !is_message {
            Some(safe_block_summary(value.kind).to_owned())
        } else {
            None
        };
        ApiTimelineBlock {
            id: value.id.clone(),
            parent_id: clone_opt(&value.parent_id),
            kind,
            created_at: clone_opt(&value.created_at),
            text,
            label,
            safe_summary,
            title: clone_opt(&value.title),
            tool_name: clone_opt(&value.tool_name),
            collapsible: value.collapsible,
            truncated: value.truncated,
            fallback: value.fallback,
            status: block_status(value.status),
        }
    }
}

// ---------------------------------------------------------------------------
// The flattened session tree

/// At most this many rows are rendered.
pub const MAX_TREE_RENDER_ROWS: usize = 8000;
/// Rows deeper than this are not expanded further.
pub const MAX_TREE_RENDER_DEPTH: usize = 256;

/// One row of the depth-first, flat tree projection.
#[derive(Debug, Clone)]
pub struct ApiTreeNode {
    pub entry_id: String,
    pub parent_id: Option<String>,
    pub label: String,
    pub kind: String,
    pub depth: usize,
    pub is_current_path: bool,
    pub issue: Option<&'static str>,
}

pub struct ApiTreeNodeView {
    pub entry_id: Seq<char>,
    pub parent_id: Option<Seq<char>>,
    pub label: Seq<char>,
    pub kind: Seq<char>,
    pub depth: nat,
    pub is_current_path: bool,
    pub issue: Option<Seq<char>>,
}

pub open spec fn opt_static_view(o: Option<&'static str>) -> Option<Seq<char>> {
    match o {
        Some(s) => Some(s@),
        None => None,
    }
}

impl View for ApiTreeNode {
    type V = ApiTreeNodeView;

    open spec fn view(&self) -> ApiTreeNodeView {
        ApiTreeNodeView {
            entry_id: self.entry_id@,
            parent_id: opt_view(self.parent_id),
            label: self.label@,
            kind: self.kind@,
            depth: self.depth as nat,
            is_current_path: self.is_current_path,
            issue: opt_static_view(self.issue),
        }
    }
}

/// A flat, depth-first tree; keeping it flat avoids recursion when a history
/// is hostile or deep.
#[derive(Debug)]
pub struct ApiSessionTree {
    pub nodes: Vec<ApiTreeNode>,
    pub diagnostic_count: usize,
    pub navigation_supported: bool,
}

pub struct ApiSessionTreeView {
    pub nodes: Seq<ApiTreeNodeView>,
    pub diagnostic_count: nat,
    pub navigation_supported: bool,
}

impl View for ApiSessionTree {
    type V = ApiSessionTreeView;

    open spec fn view(&self) -> ApiSessionTreeView {
        ApiSessionTreeView {
            nodes: self.nodes@.map_values(|n: ApiTreeNode| n@),
            diagnostic_count: self.diagnostic_count as nat,
            navigation_supported: self.navigation_supported,
        }
    }
}

/// Position of the last node named `id`; a later node with an id replaces an
/// earlier one.
pub open spec fn tree_node_pos(nodes: Seq<TreeNodeView>, id: Seq<char>) -> Option<nat>
    decreases nodes.len(),
{
    if nodes.len() == 0 {
        None
    } else if nodes.last().entry_id == id {
        Some((nodes.len() - 1) as nat)
    } else {
        tree_node_pos(nodes.drop_last(), id)
    }
}

/// The depth-first walk's state: pending `(id, depth)` pairs with the next
/// on top, ids already emitted, emitted rows, and the extra diagnostics.
pub struct TreeWalk {
    pub stack: Seq<(Seq<char>, nat)>,
    pub emitted: Seq<Seq<char>>,
    pub rows: Seq<ApiTreeNodeView>,
    pub extra: nat,
}

pub open spec fn sat_add(a: nat, b: nat) -> nat {
    if a + b > usize::MAX {
        usize::MAX as nat
    } else {
        a + b
    }
}

/// The issue shown on a row: a cycle, an orphan, or the depth limit.
pub open spec fn row_issue(id: Seq<char>, depth: nat, orphans: Seq<Seq<char>>, cycles: Seq<Seq<char>>) -> Option<Seq<char>> {
    if cycles.contains(id) {
        Some("cycle"@)
    } else if orphans.contains(id) {
        Some("orphan"@)
    } else if depth >= MAX_TREE_RENDER_DEPTH {
        Some("depth-limit"@)
    } else {
        None
    }
}

pub open spec fn tree_row(n: TreeNodeView, depth: nat, path: Seq<Seq<char>>, orphans: Seq<Seq<char>>, cycles: Seq<Seq<char>>) -> ApiTreeNodeView {
    ApiTreeNodeView {
        entry_id: n.entry_id,
        parent_id: n.parent_id,
        label: n.entry_id,
        kind: "entry"@,
        depth,
        is_current_path: path.contains(n.entry_id),
        issue: row_issue(n.entry_id, depth, orphans, cycles),
    }
}

/// The children of a node, pushed so that the first child is on top.
pub open spec fn child_frames(children: Seq<Seq<char>>, depth: nat) -> Seq<(Seq<char>, nat)> {
    children.reverse().map_values(|c: Seq<char>| (c, depth))
}

/// Runs the walk: pop the top pair; stop (counting one diagnostic) once the
/// row bound is reached; skip (counting one) an id without a node or one
/// already emitted; otherwise emit its row and, above the depth limit, push
/// its children one level deeper (at the limit, count one instead).
pub open spec fn tree_walk(
    nodes: Seq<TreeNodeView>,
    path: Seq<Seq<char>>,
    orphans: Seq<Seq<char>>,
    cycles: Seq<Seq<char>>,
    w: TreeWalk,
) -> TreeWalk
    decreases MAX_TREE_RENDER_ROWS - w.rows.len(), w.stack.len(),
{
    if w.stack.len() == 0 {
        w
    } else {
        let (id, depth) = w.stack.last();
        let rest = w.stack.drop_last();
        let extra = if w.extra < usize::MAX { w.extra + 1 } else { w.extra };
        if w.rows.len() >= MAX_TREE_RENDER_ROWS {
            TreeWalk { stack: rest, extra, ..w }
        } else {
            match tree_node_pos(nodes, id) {
                None => tree_walk(nodes, path, orphans, cycles, TreeWalk { stack: rest, extra, ..w }),
                Some(k) => if w.emitted.contains(id) {
                    tree_walk(nodes, path, orphans, cycles, TreeWalk { stack: rest, extra, ..w })
                } else {
                    let n = nodes[k as int];
                    let rows = w.rows.push(tree_row(n, depth, path, orphans, cycles));
                    let emitted = w.emitted.push(id);
                    if depth >= MAX_TREE_RENDER_DEPTH {
                        tree_walk(nodes, path, orphans, cycles, TreeWalk { stack: rest, emitted, rows, extra })
                    } else {
                        tree_walk(
                            nodes,
                            path,
                            orphans,
                            cycles,
                            TreeWalk { stack: rest + child_frames(n.children, depth + 1), emitted, rows, extra: w.extra },
                        )
                    }
                },
            }
        }
    }
}

pub open spec fn initial_walk(roots: Seq<Seq<char>>) -> TreeWalk {
    TreeWalk { stack: child_frames(roots, 0), emitted: Seq::empty(), rows: Seq::empty(), extra: 0 }
}

/// The flat projection: the walk from the roots (the first root first), rows
/// on the current path marked, and the walk's diagnostics added to
/// `diagnostic_count`, saturating.
pub open spec fn api_tree_spec(
    nodes: Seq<TreeNodeView>,
    roots: Seq<Seq<char>>,
    leaf: Option<Seq<char>>,
    diagnostic_count: nat,
    orphans: Seq<Seq<char>>,
    cycles: Seq<Seq<char>>,
) -> ApiSessionTreeView {
    let w = tree_walk(nodes, current_path(nodes, leaf), orphans, cycles, initial_walk(roots));
    ApiSessionTreeView {
        nodes: w.rows,
        diagnostic_count: sat_add(diagnostic_count, w.extra),
        navigation_supported: false,
    }
}

pub proof fn lemma_tree_node_pos(nodes: Seq<TreeNodeView>, id: Seq<char>)
    ensures
        match tree_node_pos(nodes, id) {
            Some(k) => k < nodes.len() && nodes[k as int].entry_id == id,
            None => forall|i: int| 0 <= i < nodes.len() ==> (#[trigger] nodes[i]).entry_id != id,
        },
    decreases nodes.len(),
{
    if nodes.len() > 0 {
        lemma_tree_node_pos(nodes.drop_last(), id);
        if nodes.last().entry_id != id {
            match tree_node_pos(nodes.drop_last(), id) {
                Some(k) => {
                    assert(nodes[k as int] == nodes.drop_last()[k as int]);
                },
                None => {
                    assert forall|i: int| 0 <= i < nodes.len() implies (#[trigger] nodes[i]).entry_id != id by {
                        if i < nodes.len() - 1 {
                            assert(nodes[i] == nodes.drop_last()[i]);
                        }
                    }
                },
            }
        }
    }
}

fn last_node_pos(nodes: &[SessionTreeNode], id: &str) -> (r: Option<usize>)
    ensures
        match r {
            Some(k) => tree_node_pos(tree_view(nodes@), id@) == Some(k as nat),
            None => tree_node_pos(tree_view(nodes@), id@) is None,
        },
{
    let ghost tv = tree_view(nodes@);
    let mut i = nodes.len();
    assert(tv.take(i as int) =~= tv);
    while i > 0
        invariant
            i <= nodes@.len(),
            tv == tree_view(nodes@),
            tree_node_pos(tv, id@) == tree_node_pos(tv.take(i as int), id@),
        decreases i,
    {
        assert(tv.take(i as int).last() == nodes@[i - 1]@);
        assert(tv.take(i as int).drop_last() =~= tv.take(i - 1));
        if str_eq(nodes[i - 1].entry_id.as_str(), id) {
            return Some(i - 1);
        }
        i = i - 1;
    }
    None
}

pub open spec fn frames_view(v: Seq<(String, usize)>) -> Seq<(Seq<char>, nat)> {
    v.map_values(|p: (String, usize)| (p.0@, p.1 as nat))
}

pub open spec fn rows_view(v: Seq<ApiTreeNode>) -> Seq<ApiTreeNodeView> {
    v.map_values(|n: ApiTreeNode| n@)
}

/// Pushes `(ids[i], depth)` for the ids in reverse, so the first is on top.
fn push_frames(stack: &mut Vec<(String, usize)>, ids: &[String], depth: usize)
    ensures
        frames_view(final(stack)@) == frames_view(old(stack)@) + child_frames(strings_view(ids@), depth as nat),
{
    let ghost start = frames_view(stack@);
    let ghost want = child_frames(strings_view(ids@), depth as nat);
    let mut c = ids.len();
    assert(want.take(0) =~= Seq::<(Seq<char>, nat)>::empty());
    assert(frames_view(stack@) =~= start + want.take(0));
    while c > 0
        invariant
            c <= ids@.len(),
            want == child_frames(strings_view(ids@), depth as nat),
            want.len() == ids@.len(),
            frames_view(stack@) == start + want.take(ids@.len() - c),
        decreases c,
    {
        c = c - 1;
        let ghost before = stack@;
        stack.push((ids[c].clone(), depth));
        proof {
            let k = ids@.len() - 1 - c;
            assert(want[k] == (ids@[c as int]@, depth as nat));
            assert(want.take(k + 1) =~= want.take(k).push(want[k]));
            assert(frames_view(stack@) =~= frames_view(before).push((ids@[c as int]@, depth as nat)));
        }
    }
    assert(want.take(want.len() as int) =~= want);
}

/// Flattens the session tree depth-first from `roots`, marking the rows on
/// the path from `current_leaf_id` up its ancestors and the rows named in
/// `orphan_ids` and `cycle_ids`. Emits each entry at most once, at most
/// `MAX_TREE_RENDER_ROWS` rows, and expands no row at
/// `MAX_TREE_RENDER_DEPTH`; every skipped or cut item adds a diagnostic.
pub fn api_tree(
    nodes: &[SessionTreeNode],
    roots: &[String],
    current_leaf_id: Option<&str>,
    diagnostic_count: usize,
    orphan_ids: &[String],
    cycle_ids: &[String],
) -> (r: ApiSessionTree)
    ensures
        r@ == api_tree_spec(
            tree_view(nodes@),
            strings_view(roots@),
            opt_str_view(current_leaf_id),
            diagnostic_count as nat,
            strings_view(orphan_ids@),
            strings_view(cycle_ids@),
        ),
{
    let ghost nv = tree_view(nodes@);
    let ghost ov = strings_view(orphan_ids@);
    let ghost cv = strings_view(cycle_ids@);
    let leaf: Option<String> = match current_leaf_id {
        Some(id) => Some(id.to_owned()),
        None => None,
    };
    assert(opt_view(leaf) == opt_str_view(current_leaf_id));
    let path = current_path_ids(nodes, &leaf);
    let ghost pv = strings_view(path@);
    assert(pv == current_path(nv, opt_str_view(current_leaf_id)));
    let mut stack: Vec<(String, usize)> = Vec::new();
    push_frames(&mut stack, roots, 0);
    assert(frames_view(stack@) =~= child_frames(strings_view(roots@), 0));
    let mut emitted: Vec<String> = Vec::new();
    let mut rows: Vec<ApiTreeNode> = Vec::new();
    let mut extra: usize = 0;
    let ghost target = tree_walk(nv, pv, ov, cv, initial_walk(strings_view(roots@)));
    proof {
        assert(strings_view(emitted@) =~= Seq::<Seq<char>>::empty());
        assert(rows_view(rows@) =~= Seq::<ApiTreeNodeView>::empty());
    }
    while stack.len() > 0
        invariant
            nv == tree_view(nodes@),
            ov == strings_view(orphan_ids@),
            cv == strings_view(cycle_ids@),
            pv == strings_view(path@),
            pv == current_path(nv, opt_str_view(current_leaf_id)),
            rows@.len() <= MAX_TREE_RENDER_ROWS,
            target == tree_walk(nv, pv, ov, cv, initial_walk(strings_view(roots@))),
            tree_walk(nv, pv, ov, cv, TreeWalk {
                stack: frames_view(stack@),
                emitted: strings_view(emitted@),
                rows: rows_view(rows@),
                extra: extra as nat,
            }) == target,
        decreases MAX_TREE_RENDER_ROWS - rows@.len(), stack@.len(),
    {
        let ghost w = TreeWalk {
            stack: frames_view(stack@),
            emitted: strings_view(emitted@),
            rows: rows_view(rows@),
            extra: extra as nat,
        };
        let ghost before_stack = stack@;
        let (id, depth) = stack.pop().unwrap();
        proof {
            assert(frames_view(stack@) =~= w.stack.drop_last());
            assert(w.stack.last() == (id@, depth as nat));
        }
        let next_extra = if extra < usize::MAX { extra + 1 } else { extra };
        if rows.len() >= MAX_TREE_RENDER_ROWS {
            assert(target == TreeWalk { stack: frames_view(stack@), extra: next_extra as nat, ..w });
            let result = ApiSessionTree {
                nodes: rows,
                diagnostic_count: diagnostic_count.saturating_add(next_extra),
                navigation_supported: false,
            };
            assert(result@.nodes =~= target.rows);
            return result;
        }
        match last_node_pos(nodes, id.as_str()) {
            None => {
                extra = next_extra;
            },
            Some(k) => {
                if contains_str(emitted.as_slice(), id.as_str()) {
                    extra = next_extra;
                } else {
                    proof {
                        lemma_tree_node_pos(nv, id@);
                    }
                    let node = &nodes[k];
                    let issue = if contains_str(cycle_ids, id.as_str()) {
                        Some("cycle")
                    } else if contains_str(orphan_ids, id.as_str()) {
                        Some("orphan")
                    } else if depth >= MAX_TREE_RENDER_DEPTH {
                        Some("depth-limit")
                    } else {
                        None
                    };
                    let on_path = contains_str(path.as_slice(), id.as_str());
                    let row = ApiTreeNode {
                        entry_id: node.entry_id.clone(),
                        parent_id: clone_opt(&node.parent_id),
                        label: node.entry_id.clone(),
                        kind: "entry".to_owned(),
                        depth,
                        is_current_path: on_path,
                        issue,
                    };
                    proof {
                        assert(nv[k as int] == node@);
                        assert(row@ == tree_row(nv[k as int], depth as nat, pv, ov, cv));
                    }
                    let ghost rows_before = rows@;
                    let ghost emitted_before = emitted@;
                    rows.push(row);
                    emitted.push(id);
                    proof {
                        assert(rows_view(rows@) =~= rows_view(rows_before).push(tree_row(nv[k as int], depth as nat, pv, ov, cv)));
                        assert(strings_view(emitted@) =~= strings_view(emitted_before).push(w.stack.last().0));
                    }
                    if depth >= MAX_TREE_RENDER_DEPTH {
                        extra = next_extra;
                    } else {
                        let ghost popped = frames_view(stack@);
                        push_frames(&mut stack, node.children.as_slice(), depth + 1);
                        assert(node.children@ == nodes@[k as int].children@);
                        assert(strings_view(node.children@) == nv[k as int].children);
                    }
                }
            },
        }
    }
    let result = ApiSessionTree {
        nodes: rows,
        diagnostic_count: diagnostic_count.saturating_add(extra),
        navigation_supported: false,
    };
    assert(result@.nodes =~= target.rows);
    result
}

/// What every state of the walk keeps: within the row bound, one emitted id
/// per row and none twice, and no row or pending item below the depth limit.
pub open spec fn walk_bounded(w: TreeWalk) -> bool {
    &&& w.rows.len() <= MAX_TREE_RENDER_ROWS
    &&& w.rows.len() == w.emitted.len()
    &&& w.emitted.no_duplicates()
    &&& forall|i: int| 0 <= i < w.rows.len() ==> (#[trigger] w.rows[i]).entry_id == w.emitted[i] && w.rows[i].depth <= MAX_TREE_RENDER_DEPTH
    &&& forall|i: int| 0 <= i < w.stack.len() ==> (#[trigger] w.stack[i]).1 <= MAX_TREE_RENDER_DEPTH
}

proof fn lemma_tree_walk_bounded(
    nodes: Seq<TreeNodeView>,
    path: Seq<Seq<char>>,
    orphans: Seq<Seq<char>>,
    cycles: Seq<Seq<char>>,
    w: TreeWalk,
)
    requires
        walk_bounded(w),
    ensures
        walk_bounded(tree_walk(nodes, path, orphans, cycles, w)),
    decreases MAX_TREE_RENDER_ROWS - w.rows.len(), w.stack.len(),
{
    if w.stack.len() > 0 && w.rows.len() < MAX_TREE_RENDER_ROWS {
        let (id, depth) = w.stack.last();
        let rest = w.stack.drop_last();
        let extra = if w.extra < usize::MAX { w.extra + 1 } else { w.extra };
        assert forall|i: int| 0 <= i < rest.len() implies (#[trigger] rest[i]).1 <= MAX_TREE_RENDER_DEPTH by {
            assert(rest[i] == w.stack[i]);
        }
        assert(depth <= MAX_TREE_RENDER_DEPTH) by {
            assert(w.stack[w.stack.len() - 1] == w.stack.last());
        }
        lemma_tree_node_pos(nodes, id);
        match tree_node_pos(nodes, id) {
            None => {
                lemma_tree_walk_bounded(nodes, path, orphans, cycles, TreeWalk { stack: rest, extra, ..w });
            },
            Some(k) => {
                if w.emitted.contains(id) {
                    lemma_tree_walk_bounded(nodes, path, orphans, cycles, TreeWalk { stack: rest, extra, ..w });
                } else {
                    let n = nodes[k as int];
                    let rows = w.rows.push(tree_row(n, depth, path, orphans, cycles));
                    let emitted = w.emitted.push(id);
                    assert(emitted.no_duplicates()) by {
                        assert forall|i: int, j: int| 0 <= i < j < emitted.len() implies emitted[i] != emitted[j] by {
                            if j == emitted.len() - 1 {
                                assert(emitted[i] == w.emitted[i]);
                            } else {
                                assert(emitted[i] == w.emitted[i] && emitted[j] == w.emitted[j]);
                            }
                        }
                    }
                    assert forall|i: int| 0 <= i < rows.len() implies (#[trigger] rows[i]).entry_id == emitted[i] && rows[i].depth <= MAX_TREE_RENDER_DEPTH by {
                        if i < w.rows.len() {
                            assert(rows[i] == w.rows[i] && emitted[i] == w.emitted[i]);
                        }
                    }
                    if depth >= MAX_TREE_RENDER_DEPTH {
                        lemma_tree_walk_bounded(nodes, path, orphans, cycles, TreeWalk { stack: rest, emitted, rows, extra });
                    } else {
                        let frames = child_frames(n.children, depth + 1);
                        let stack = rest + frames;
                        assert forall|i: int| 0 <= i < stack.len() implies (#[trigger] stack[i]).1 <= MAX_TREE_RENDER_DEPTH by {
                            if i < rest.len() {
                                assert(stack[i] == rest[i]);
                            } else {
                                assert(stack[i] == frames[i - rest.len()]);
                            }
                        }
                        lemma_tree_walk_bounded(nodes, path, orphans, cycles, TreeWalk { stack, emitted, rows, extra: w.extra });
                    }
                }
            },
        }
    }
}

/// The flattened tree is bounded whatever the input: at most
/// `MAX_TREE_RENDER_ROWS` rows, no row deeper than `MAX_TREE_RENDER_DEPTH`,
/// and no entry listed twice.
pub proof fn lemma_api_tree_bounded(
    nodes: Seq<TreeNodeView>,
    roots: Seq<Seq<char>>,
    leaf: Option<Seq<char>>,
    diagnostic_count: nat,
    orphans: Seq<Seq<char>>,
    cycles: Seq<Seq<char>>,
)
    ensures
        api_tree_spec(nodes, roots, leaf, diagnostic_count, orphans, cycles).nodes.len() <= MAX_TREE_RENDER_ROWS,
        forall|i: int| 0 <= i < api_tree_spec(nodes, roots, leaf, diagnostic_count, orphans, cycles).nodes.len()
            ==> (#[trigger] api_tree_spec(nodes, roots, leaf, diagnostic_count, orphans, cycles).nodes[i]).depth <= MAX_TREE_RENDER_DEPTH,
        forall|i: int, j: int| 0 <= i < j < api_tree_spec(nodes, roots, leaf, diagnostic_count, orphans, cycles).nodes.len()
            ==> (#[trigger] api_tree_spec(nodes, roots, leaf, diagnostic_count, orphans, cycles).nodes[i]).entry_id
                != (#[trigger] api_tree_spec(nodes, roots, leaf, diagnostic_count, orphans, cycles).nodes[j]).entry_id,
{
    let w0 = initial_walk(roots);
    assert forall|i: int| 0 <= i < w0.stack.len() implies (#[trigger] w0.stack[i]).1 <= MAX_TREE_RENDER_DEPTH by {}
    lemma_tree_walk_bounded(nodes, current_path(nodes, leaf), orphans, cycles, w0);
    let w = tree_walk(nodes, current_path(nodes, leaf), orphans, cycles, w0);
    let t = api_tree_spec(nodes, roots, leaf, diagnostic_count, orphans, cycles);
    assert(t.nodes == w.rows);
    assert forall|i: int, j: int| 0 <= i < j < t.nodes.len() implies (#[trigger] t.nodes[i]).entry_id != (#[trigger] t.nodes[j]).entry_id by {
        assert(t.nodes[i].entry_id == w.emitted[i]);
        assert(t.nodes[j].entry_id == w.emitted[j]);
    }
}

/// The flat tree of a scan report.
pub fn tree_from_report(report: &ScanReport) -> (r: ApiSessionTree)
    ensures
        r@ == api_tree_spec(
            tree_view(report.tree@),
            strings_view(report.roots@),
            opt_view(report.current_leaf_id),
            report.diagnostics@.len(),
            strings_view(report.orphan_ids@),
            strings_view(report.cycle_ids@),
        ),
{
    let leaf: Option<&str> = match &report.current_leaf_id {
        Some(id) => Some(id.as_str()),
        None => None,
    };
    api_tree(
        report.tree.as_slice(),
        report.roots.as_slice(),
        leaf,
        report.diagnostics.len(),
        report.orphan_ids.as_slice(),
        report.cycle_ids.as_slice(),
    )
}

// ---------------------------------------------------------------------------
// Command argument validation

pub const MAX_PROMPT_CHARS: usize = 128000;
pub const MAX_RUNTIME_ID_CHARS: usize = 128;
pub const MAX_MODEL_IDENTIFIER_CHARS: usize = 256;
pub const MAX_SESSION_NAME_CHARS: usize = 200;
pub const MAX_EXTENSION_UI_RESPONSE_CHARS: usize = 131072;
pub const MAX_FAKE_INPUT_CHARS: usize = 4000;

/// An ASCII hexadecimal digit, as a byte.
pub open spec fn is_hex_byte(b: u8) -> bool {
    (0x30 <= b && b <= 0x39) || (0x41 <= b && b <= 0x46) || (0x61 <= b && b <= 0x66)
}

/// A lower-case ASCII hexadecimal digit, as a byte.
pub open spec fn is_lower_hex_byte(b: u8) -> bool {
    (0x30 <= b && b <= 0x39) || (0x61 <= b && b <= 0x66)
}

/// `prefix` followed by exactly 64 hexadecimal digits, compared as bytes.
pub open spec fn opaque_surface_id_shape(value: Seq<u8>, prefix: Seq<u8>) -> bool {
    &&& value.len() == prefix.len() + 64
    &&& value.take(prefix.len() as int) == prefix
    &&& forall|i: int| prefix.len() <= i < value.len() ==> is_hex_byte(#[trigger] value[i])
}

pub fn valid_opaque_surface_id(value: &str, prefix: &str) -> (r: bool)
    ensures
        r == opaque_surface_id_shape(encode_utf8(value@), encode_utf8(prefix@)),
{
    let v = value.as_bytes();
    let p = prefix.as_bytes();
    assert(v@ == encode_utf8(value@) && p@ == encode_utf8(prefix@));
    assert(v.len() == v@.len() && p.len() == p@.len());
    if p.len() > usize::MAX - 64 || v.len() != p.len() + 64 {
        return false;
    }
    let mut i: usize = 0;
    while i < p.len()
        invariant
            v@ == encode_utf8(value@),
            p@ == encode_utf8(prefix@),
            v@.len() == p@.len() + 64,
            i <= p@.len(),
            v@.take(i as int) == p@.take(i as int),
        decreases p.len() - i,
    {
        if v[i] != p[i] {
            assert(v@.take(p@.len() as int)[i as int] != p@[i as int]);
            return false;
        }
        assert(v@.take(i + 1) =~= v@.take(i as int).push(v@[i as int]));
        assert(p@.take(i + 1) =~= p@.take(i as int).push(p@[i as int]));
        i = i + 1;
    }
    assert(p@.take(p@.len() as int) =~= p@);
    while i < v.len()
        invariant
            v@ == encode_utf8(value@),
            p@ == encode_utf8(prefix@),
            v@.len() == p@.len() + 64,
            p@.len() <= i <= v@.len(),
            v@.take(p@.len() as int) == p@,
            forall|j: int| p@.len() <= j < i ==> is_hex_byte(#[trigger] v@[j]),
        decreases v.len() - i,
    {
        let b = v[i];
        if !((0x30 <= b && b <= 0x39) || (0x41 <= b && b <= 0x46) || (0x61 <= b && b <= 0x66)) {
            return false;
        }
        i = i + 1;
    }
    true
}

/// A prompt is sent unchanged unless it is only whitespace or longer than
/// the prompt bound.
pub open spec fn prompt_text_spec(s: Seq<char>) -> Option<Seq<char>> {
    if (forall|i: int| 0 <= i < s.len() ==> is_whitespace_char(#[trigger] s[i])) || s.len() > MAX_PROMPT_CHARS {
        None
    } else {
        Some(s)
    }
}

pub fn prompt_text(value: &str) -> (r: Option<String>)
    ensures
        opt_view(r) == prompt_text_spec(value@),
{
    let chars = str_chars(value);
    if chars.len() > MAX_PROMPT_CHARS {
        return None;
    }
    let mut i: usize = 0;
    while i < chars.len()
        invariant
            chars@ == value@,
            chars@.len() <= MAX_PROMPT_CHARS,
            i <= chars@.len(),
            forall|j: int| 0 <= j < i ==> is_whitespace_char(#[trigger] chars@[j]),
        decreases chars.len() - i,
    {
        if !is_whitespace(chars[i]) {
            assert(!is_whitespace_char(value@[i as int]));
            return Some(value.to_owned());
        }
        i = i + 1;
    }
    None
}

pub open spec fn is_ascii_graphic_char(c: char) -> bool {
    '!' <= c && c <= '~'
}

/// A runtime id: one to `MAX_RUNTIME_ID_CHARS` ASCII letters, digits or
/// hyphens.
pub open spec fn runtime_id_shape(s: Seq<char>) -> bool {
    &&& 0 < s.len() <= MAX_RUNTIME_ID_CHARS
    &&& forall|i: int| 0 <= i < s.len() ==> is_ascii_alnum_char(#[trigger] s[i]) || s[i] == '-'
}

pub fn valid_runtime_id(value: &str) -> (r: bool)
    ensures
        r == runtime_id_shape(value@),
{
    let chars = str_chars(value);
    if chars.len() == 0 || chars.len() > MAX_RUNTIME_ID_CHARS {
        return false;
    }
    let mut i: usize = 0;
    while i < chars.len()
        invariant
            chars@ == value@,
            i <= chars@.len(),
            forall|j: int| 0 <= j < i ==> is_ascii_alnum_char(#[trigger] chars@[j]) || chars@[j] == '-',
        decreases chars.len() - i,
    {
        if !(is_ascii_alnum(chars[i]) || chars[i] == '-') {
            return false;
        }
        i = i + 1;
    }
    true
}

/// A model or provider identifier: one to `MAX_MODEL_IDENTIFIER_CHARS`
/// visible ASCII characters.
pub open spec fn rpc_identifier_shape(s: Seq<char>) -> bool {
    &&& 0 < s.len() <= MAX_MODEL_IDENTIFIER_CHARS
    &&& forall|i: int| 0 <= i < s.len() ==> is_ascii_graphic_char(#[trigger] s[i])
}

pub fn rpc_identifier(value: &str) -> (r: Option<String>)
    ensures
        opt_view(r) == (if rpc_identifier_shape(value@) { Some(value@) } else { None::<Seq<char>> }),
{
    let chars = str_chars(value);
    if chars.len() == 0 || chars.len() > MAX_MODEL_IDENTIFIER_CHARS {
        return None;
    }
    let mut i: usize = 0;
    while i < chars.len()
        invariant
            chars@ == value@,
            i <= chars@.len(),
            forall|j: int| 0 <= j < i ==> is_ascii_graphic_char(#[trigger] chars@[j]),
        decreases chars.len() - i,
    {
        if !('!' <= chars[i] && chars[i] <= '~') {
            return None;
        }
        i = i + 1;
    }
    Some(value.to_owned())
}

/// The thinking levels a runtime accepts.
pub open spec fn is_thinking_level(s: Seq<char>) -> bool {
    s == "off"@ || s == "minimal"@ || s == "low"@ || s == "medium"@ || s == "high"@ || s == "xhigh"@
        || s == "max"@
}

pub fn thinking_level(value: &str) -> (r: Option<String>)
    ensures
        opt_view(r) == (if is_thinking_level(value@) { Some(value@) } else { None::<Seq<char>> }),
{
    if str_eq(value, "off") || str_eq(value, "minimal") || str_eq(value, "low") || str_eq(value, "medium")
        || str_eq(value, "high") || str_eq(value, "xhigh") || str_eq(value, "max") {
        Some(value.to_owned())
    } else {
        None
    }
}

/// `s` without leading whitespace.
pub open spec fn trim_start_ws(s: Seq<char>) -> Seq<char>
    decreases s.len(),
{
    if s.len() > 0 && is_whitespace_char(s[0]) {
        trim_start_ws(s.drop_first())
    } else {
        s
    }
}

/// `s` without trailing whitespace.
pub open spec fn trim_end_ws(s: Seq<char>) -> Seq<char>
    decreases s.len(),
{
    if s.len() > 0 && is_whitespace_char(s.last()) {
        trim_end_ws(s.drop_last())
    } else {
        s
    }
}

/// `s` without leading or trailing whitespace (what `str::trim` returns).
pub open spec fn trim_ws(s: Seq<char>) -> Seq<char> {
    trim_end_ws(trim_start_ws(s))
}

proof fn lemma_trim_start_skip(s: Seq<char>, k: int)
    requires
        0 <= k <= s.len(),
        forall|j: int| 0 <= j < k ==> is_whitespace_char(#[trigger] s[j]),
    ensures
        trim_start_ws(s) == trim_start_ws(s.skip(k)),
    decreases k,
{
    if k > 0 {
        assert(is_whitespace_char(s[0]));
        assert(trim_start_ws(s) == trim_start_ws(s.drop_first()));
        assert(s.drop_first().skip(k - 1) =~= s.skip(k));
        assert forall|j: int| 0 <= j < k - 1 implies is_whitespace_char(#[trigger] s.drop_first()[j]) by {
            assert(s.drop_first()[j] == s[j + 1]);
        }
        lemma_trim_start_skip(s.drop_first(), k - 1);
    } else {
        assert(s.skip(0) =~= s);
    }
}

proof fn lemma_trim_end_take(s: Seq<char>, k: int)
    requires
        0 <= k <= s.len(),
        forall|j: int| k <= j < s.len() ==> is_whitespace_char(#[trigger] s[j]),
    ensures
        trim_end_ws(s) == trim_end_ws(s.take(k)),
    decreases s.len() - k,
{
    if k < s.len() {
        assert(s.drop_last().take(k) =~= s.take(k));
        assert forall|j: int| k <= j < s.len() - 1 implies is_whitespace_char(#[trigger] s.drop_last()[j]) by {
            assert(s.drop_last()[j] == s[j]);
        }
        lemma_trim_end_take(s.drop_last(), k);
    } else {
        assert(s.take(k) =~= s);
    }
}

/// A session name is trimmed, and accepted when one to
/// `MAX_SESSION_NAME_CHARS` characters remain, none of them a control.
pub open spec fn session_name_spec(s: Seq<char>) -> Option<Seq<char>> {
    let t = trim_ws(s);
    if 0 < t.len() <= MAX_SESSION_NAME_CHARS && forall|i: int| 0 <= i < t.len() ==> !is_control_char(#[trigger] t[i]) {
        Some(t)
    } else {
        None
    }
}

/// `str::trim`: `value` without leading or trailing whitespace.
pub fn trim_str(value: &str) -> (r: String)
    ensures
        r@ == trim_ws(value@),
{
    let chars = str_chars(value);
    let mut start: usize = 0;
    while start < chars.len() && is_whitespace(chars[start])
        invariant
            chars@ == value@,
            start <= chars@.len(),
            forall|j: int| 0 <= j < start ==> is_whitespace_char(#[trigger] chars@[j]),
        decreases chars.len() - start,
    {
        start = start + 1;
    }
    proof {
        lemma_trim_start_skip(chars@, start as int);
    }
    let ghost rest = chars@.skip(start as int);
    let mut end: usize = chars.len();
    while end > start && is_whitespace(chars[end - 1])
        invariant
            chars@ == value@,
            start <= end <= chars@.len(),
            rest == chars@.skip(start as int),
            forall|j: int| end - start <= j < rest.len() ==> is_whitespace_char(#[trigger] rest[j]),
        decreases end,
    {
        end = end - 1;
    }
    proof {
        lemma_trim_end_take(rest, end - start);
        let n = end - start;
        assert(rest.take(n) =~= chars@.subrange(start as int, end as int));
        if start < chars@.len() {
            assert(rest[0] == chars@[start as int]);
            assert(!is_whitespace_char(rest[0]));
            assert(trim_start_ws(rest) == rest);
        } else {
            assert(rest.len() == 0);
            assert(trim_start_ws(rest) == rest);
        }
        if n > 0 {
            assert(rest.take(n).last() == rest[n - 1]);
            assert(!is_whitespace_char(rest.take(n).last()));
            assert(trim_end_ws(rest.take(n)) == rest.take(n));
        } else {
            assert(trim_end_ws(rest.take(n)) == rest.take(n));
        }
        assert(trim_ws(value@) == chars@.subrange(start as int, end as int));
    }
    string_from_range(&chars, start, end)
}

pub fn session_name(value: &str) -> (r: Option<String>)
    ensures
        opt_view(r) == session_name_spec(value@),
{
    let trimmed = trim_str(value);
    let chars = str_chars(trimmed.as_str());
    if chars.len() == 0 || chars.len() > MAX_SESSION_NAME_CHARS {
        return None;
    }
    let mut i: usize = 0;
    while i < chars.len()
        invariant
            chars@ == trimmed@,
            trimmed@ == trim_ws(value@),
            i <= chars@.len(),
            forall|j: int| 0 <= j < i ==> !is_control_char(#[trigger] chars@[j]),
        decreases chars.len() - i,
    {
        if is_control(chars[i]) {
            return None;
        }
        i = i + 1;
    }
    Some(trimmed)
}

/// Version of the session catalog snapshots and events.
pub const SESSION_CATALOG_PROTOCOL: u8 = 7;
/// Longest project path a registration accepts, in bytes.
pub const MAX_PROJECT_PATH_BYTES: usize = 32768;
/// Largest session a bounded rescan reads.
pub const MAX_SESSION_RESCAN_BYTES: usize = 134217728;

/// A project path may be registered when it is not blank and is at most the
/// path bound long.
pub fn valid_project_path(path: &str) -> (r: bool)
    ensures
        r == (trim_ws(path@).len() > 0 && encode_utf8(path@).len() <= MAX_PROJECT_PATH_BYTES),
{
    let trimmed = trim_str(path);
    !trimmed.as_str().is_empty() && path.as_bytes().len() <= MAX_PROJECT_PATH_BYTES
}

/// A requested trust state: one of its stored spellings.
pub fn parse_trust_request(value: &str) -> (r: Result<TrustState, ApiError>)
    ensures
        match crate::catalog::trust_from_name(value@) {
            Some(t) => r == Ok::<TrustState, ApiError>(t),
            None => r is Err && is_invalid_error(r->Err_0),
        },
{
    match TrustState::from_db(value) {
        Ok(t) => Ok(t),
        Err(_) => Err(ApiError::invalid()),
    }
}

/// A catalog snapshot: its scope, its status and the listed sessions; the
/// personal catalog names no project.
pub fn catalog_snapshot(
    project_id: &str,
    personal: bool,
    status: crate::host_state::CatalogRefreshStatus,
    sessions: Vec<SessionSummary>,
) -> (r: ApiSessionCatalogSnapshot)
    ensures
        r.protocol == SESSION_CATALOG_PROTOCOL,
        r.scope@ == (if personal { "personal"@ } else { "project"@ }),
        personal ==> r.project_id is None,
        !personal ==> (r.project_id matches Some(p) && p@ == project_id@),
        r.sequence == status.sequence,
        r.freshness@ == freshness_label(status.freshness),
        r.sessions@.len() == sessions@.len(),
        forall|i: int| 0 <= i < r.sessions@.len() ==> (#[trigger] r.sessions@[i])@ == listed_summary(sessions@[i], personal),
{
    ApiSessionCatalogSnapshot {
        protocol: SESSION_CATALOG_PROTOCOL,
        scope: if personal { "personal" } else { "project" },
        project_id: if personal { None } else { Some(project_id.to_owned()) },
        sequence: status.sequence,
        freshness: catalog_freshness_name(status.freshness),
        sessions: api_session_summaries(sessions, personal),
    }
}

/// The event announcing a started refresh.
pub fn refresh_started_event(project_id: &str, personal: bool, sequence: u64) -> (r: ApiSessionCatalogEvent)
    ensures
        r matches ApiSessionCatalogEvent::RefreshStarted { protocol, scope, project_id: p, sequence: s }
            && protocol == SESSION_CATALOG_PROTOCOL && s == sequence
            && scope@ == (if personal { "personal"@ } else { "project"@ })
            && (if personal { p is None } else { p matches Some(q) && q@ == project_id@ }),
{
    ApiSessionCatalogEvent::RefreshStarted {
        protocol: SESSION_CATALOG_PROTOCOL,
        scope: if personal { "personal" } else { "project" },
        project_id: if personal { None } else { Some(project_id.to_owned()) },
        sequence,
    }
}

/// The event carrying the snapshot after a complete refresh.
pub fn refresh_snapshot_event(snapshot: ApiSessionCatalogSnapshot) -> (r: ApiSessionCatalogEvent)
    ensures
        r == (ApiSessionCatalogEvent::Snapshot { protocol: SESSION_CATALOG_PROTOCOL, snapshot }),
{
    ApiSessionCatalogEvent::Snapshot { protocol: SESSION_CATALOG_PROTOCOL, snapshot }
}

/// How a started catalog refresh ended.
#[derive(Debug, Clone, Copy, PartialEq, Eq, Structural)]
pub enum RefreshOutcome {
    /// Every source was covered.
    Complete,
    /// The pass finished without covering every source.
    Incomplete,
    /// The pass failed.
    Failed,
}

/// Records the end of a started refresh in `store` and says what to
/// announce. A complete pass becomes current (and a full integrity scan
/// resets the incremental count); the caller then announces the fresh
/// snapshot, so no event is returned. An incomplete or failed pass becomes
/// degraded, and the returned event says so under the degraded sequence.
pub fn finish_refresh(
    store: &mut CatalogRefreshStore,
    project_id: &str,
    personal: bool,
    full_integrity: bool,
    outcome: RefreshOutcome,
) -> (r: (CatalogRefreshStatus, Option<ApiSessionCatalogEvent>))
    requires
        old(store).wf(),
    ensures
        final(store).wf(),
        outcome == RefreshOutcome::Complete ==> {
            &&& final(store).model() == refresh_step(old(store).model(), RefreshEvent::Complete(project_id@, full_integrity))
            &&& Some(r.0) == refresh_returned(old(store).model(), RefreshEvent::Complete(project_id@, full_integrity))
            &&& r.1 is None
        },
        outcome != RefreshOutcome::Complete ==> {
            &&& final(store).model() == refresh_step(old(store).model(), RefreshEvent::Fail(project_id@))
            &&& Some(r.0) == refresh_returned(old(store).model(), RefreshEvent::Fail(project_id@))
            &&& r.1 matches Some(ApiSessionCatalogEvent::RefreshFailed { protocol, scope, project_id: p, sequence, safe_summary })
                && protocol == SESSION_CATALOG_PROTOCOL && sequence == r.0.sequence
                && scope@ == (if personal { "personal"@ } else { "project"@ })
                && (if personal { p is None } else { p matches Some(q) && q@ == project_id@ })
                && safe_summary@ == (if outcome == RefreshOutcome::Incomplete {
                    "Some local sessions could not be verified. Showing the last indexed catalog."@
                } else {
                    "Local sessions could not be refreshed. Showing the last indexed catalog."@
                })
        },
{
    match outcome {
        RefreshOutcome::Complete => (store.complete(project_id, full_integrity), None),
        _ => {
            let status = store.fail(project_id);
            let event = refresh_failed_event(project_id, personal, outcome == RefreshOutcome::Incomplete, status.sequence);
            (status, Some(event))
        },
    }
}

/// The event ending a refresh that did not complete: `incomplete` when the
/// pass finished without covering every source, else it failed. It carries
/// the degraded status's sequence and a fixed summary.
pub fn refresh_failed_event(project_id: &str, personal: bool, incomplete: bool, sequence: u64) -> (r: ApiSessionCatalogEvent)
    ensures
        r matches ApiSessionCatalogEvent::RefreshFailed { protocol, scope, project_id: p, sequence: s, safe_summary }
            && protocol == SESSION_CATALOG_PROTOCOL && s == sequence
            && scope@ == (if personal { "personal"@ } else { "project"@ })
            && (if personal { p is None } else { p matches Some(q) && q@ == project_id@ })
            && safe_summary@ == (if incomplete {
                "Some local sessions could not be verified. Showing the last indexed catalog."@
            } else {
                "Local sessions could not be refreshed. Showing the last indexed catalog."@
            }),
{
    ApiSessionCatalogEvent::RefreshFailed {
        protocol: SESSION_CATALOG_PROTOCOL,
        scope: if personal { "personal" } else { "project" },
        project_id: if personal { None } else { Some(project_id.to_owned()) },
        sequence,
        safe_summary: if incomplete {
            "Some local sessions could not be verified. Showing the last indexed catalog."
        } else {
            "Local sessions could not be refreshed. Showing the last indexed catalog."
        },
    }
}

/// A runtime may act only in a trusted project.
pub fn trust_gate(require_trusted: bool, trust: TrustState) -> (r: Result<(), ApiError>)
    ensures
        require_trusted && trust != TrustState::Trusted ==> (r matches Err(e) && e.code@ == "NOT_TRUSTED"@),
        !(require_trusted && trust != TrustState::Trusted) ==> r is Ok,
{
    if require_trusted && trust != TrustState::Trusted {
        Err(ApiError::not_trusted())
    } else {
        Ok(())
    }
}

/// What a directory verdict answers: the registered directory proceeds, a
/// missing one is unavailable, a replaced one a conflict.
pub fn directory_verdict_result(verdict: crate::host_state::DirectoryVerdict) -> (r: Result<(), ApiError>)
    ensures
        verdict == crate::host_state::DirectoryVerdict::Verified ==> r is Ok,
        verdict == crate::host_state::DirectoryVerdict::Missing ==> (r matches Err(e) && e.code@ == "PROJECT_UNAVAILABLE"@),
        verdict == crate::host_state::DirectoryVerdict::Replaced ==> (r matches Err(e) && e.code@ == "CONFLICT"@),
{
    match verdict {
        crate::host_state::DirectoryVerdict::Verified => Ok(()),
        crate::host_state::DirectoryVerdict::Missing => Err(ApiError::project_unavailable()),
        crate::host_state::DirectoryVerdict::Replaced => Err(ApiError::conflict()),
    }
}

impl SessionRevisionAdmission {
    /// Captures an observed session; a report whose revision is not a
    /// revision token is an I/O failure.
    pub fn capture(project_id: &str, session_id: &str, session_file: String, report: &ScanReport) -> (r: Result<SessionRevisionAdmission, ApiError>)
        ensures
            !file_revision_shape(encode_utf8(report.file_revision@)) ==> (r matches Err(e) && is_io_error(e)),
            file_revision_shape(encode_utf8(report.file_revision@)) ==> (r matches Ok(a)
                && a.project_id@ == project_id@ && a.session_id@ == session_id@ && a.session_file@ == session_file@
                && opt_view(a.pi_session_id) == opt_view(report.pi_session_id)
                && a.file_revision@ == report.file_revision@),
    {
        if !safe_file_revision(report.file_revision.as_str()) {
            return Err(ApiError::io());
        }
        Ok(SessionRevisionAdmission {
            project_id: project_id.to_owned(),
            session_id: session_id.to_owned(),
            session_file,
            pi_session_id: clone_opt_string(&report.pi_session_id),
            file_revision: report.file_revision.clone(),
        })
    }

    /// A re-observation still matches: same source, revision and native
    /// session id.
    pub fn unchanged(&self, session_file: &str, report: &ScanReport) -> (r: bool)
        ensures
            r == (self.session_file@ == session_file@ && self.file_revision@ == report.file_revision@
                && opt_view(self.pi_session_id) == opt_view(report.pi_session_id)),
    {
        str_eq(self.session_file.as_str(), session_file) && str_eq(self.file_revision.as_str(), report.file_revision.as_str())
            && opt_string_eq(&self.pi_session_id, &report.pi_session_id)
    }

    /// A baseline recaptured after a runtime opened the session may replace
    /// this one only when it is the same source, keeps the native session id
    /// this one had, and names the session the runtime opened.
    pub fn recapture_accepted(&self, refreshed: &SessionRevisionAdmission, opened_pi_session_id: &str) -> (r: bool)
        ensures
            r == (self.session_file@ == refreshed.session_file@
                && (self.pi_session_id is None || opt_view(refreshed.pi_session_id) == opt_view(self.pi_session_id))
                && (match refreshed.pi_session_id {
                    Some(id) => id@ == opened_pi_session_id@,
                    None => true,
                })),
    {
        let preserves = match &self.pi_session_id {
            None => true,
            Some(expected) => match &refreshed.pi_session_id {
                Some(id) => str_eq(id.as_str(), expected.as_str()),
                None => false,
            },
        };
        let matches_opened = match &refreshed.pi_session_id {
            Some(id) => str_eq(id.as_str(), opened_pi_session_id),
            None => true,
        };
        str_eq(self.session_file.as_str(), refreshed.session_file.as_str()) && preserves && matches_opened
    }
}

fn clone_opt_string(o: &Option<String>) -> (r: Option<String>)
    ensures
        opt_view(r) == opt_view(*o),
{
    match o {
        Some(s) => Some(s.clone()),
        None => None,
    }
}

fn opt_string_eq(a: &Option<String>, b: &Option<String>) -> (r: bool)
    ensures
        r == (opt_view(*a) == opt_view(*b)),
{
    match (a, b) {
        (Some(x), Some(y)) => str_eq(x.as_str(), y.as_str()),
        (None, None) => true,
        _ => false,
    }
}

/// A file revision token: 64 lower-case hexadecimal digits.
pub open spec fn file_revision_shape(b: Seq<u8>) -> bool {
    b.len() == 64 && forall|i: int| 0 <= i < b.len() ==> is_lower_hex_byte(#[trigger] b[i])
}

pub fn safe_file_revision(value: &str) -> (r: bool)
    ensures
        r == file_revision_shape(encode_utf8(value@)),
{
    let b = value.as_bytes();
    if b.len() != 64 {
        return false;
    }
    let mut i: usize = 0;
    while i < b.len()
        invariant
            b@ == encode_utf8(value@),
            i <= b@.len(),
            forall|j: int| 0 <= j < i ==> is_lower_hex_byte(#[trigger] b@[j]),
        decreases b.len() - i,
    {
        let c = b[i];
        if !((0x30 <= c && c <= 0x39) || (0x61 <= c && c <= 0x66)) {
            return false;
        }
        i = i + 1;
    }
    true
}

/// Input to the deterministic fixture: controls removed, at most
/// `MAX_FAKE_INPUT_CHARS` characters kept.
pub fn safe_fake_text(value: &str) -> (r: String)
    ensures
        r@ == take_chars(drop_controls(value@), MAX_FAKE_INPUT_CHARS as nat),
{
    let chars = str_chars(value);
    let visible = drop_control_chars(&chars);
    let end = if MAX_FAKE_INPUT_CHARS < visible.len() { MAX_FAKE_INPUT_CHARS } else { visible.len() };
    let r = string_from_range(&visible, 0, end);
    assert(visible@.subrange(0, end as int) =~= take_chars(visible@, MAX_FAKE_INPUT_CHARS as nat));
    r
}

/// A reply to an extension dialog.
pub enum ExtensionUiResponse {
    Selected { option_id: String },
    Submitted { value: String },
    Confirmed { confirmed: bool },
    Cancelled,
}

/// A selection names a host-issued option id; a submitted value stays within
/// its bound; confirmations and cancellations are always accepted.
pub open spec fn extension_ui_response_ok(r: ExtensionUiResponse) -> bool {
    match r {
        ExtensionUiResponse::Selected { option_id } => opaque_surface_id_shape(
            encode_utf8(option_id@),
            encode_utf8("piui-extension-option-"@),
        ),
        ExtensionUiResponse::Submitted { value } => value@.len() <= MAX_EXTENSION_UI_RESPONSE_CHARS,
        _ => true,
    }
}

pub fn valid_extension_ui_response(response: &ExtensionUiResponse) -> (r: bool)
    ensures
        r == extension_ui_response_ok(*response),
{
    match response {
        ExtensionUiResponse::Selected { option_id } => valid_opaque_surface_id(option_id.as_str(), "piui-extension-option-"),
        ExtensionUiResponse::Submitted { value } => {
            let chars = str_chars(value.as_str());
            chars.len() <= MAX_EXTENSION_UI_RESPONSE_CHARS
        },
        ExtensionUiResponse::Confirmed { .. } => true,
        ExtensionUiResponse::Cancelled => true,
    }
}

/// Why a live runtime command failed.
#[derive(Debug, Clone, Copy, PartialEq, Eq, Structural)]
pub enum RuntimeFailure {
    Resolve,
    Spawn,
    Timeout,
    Command,
    Exited,
    Protocol,
    NotRunning,
    Channel,
    InvalidExtensionUiResponse,
}

/// The user-facing error for each runtime failure.
pub open spec fn runtime_failure_message(f: RuntimeFailure) -> (Seq<char>, Seq<char>) {
    match f {
        RuntimeFailure::Resolve => ("RUNTIME_FAILED"@, "Pi could not be found on this machine. Install it or set the PIUI_PI_CLI environment variable, then start the runtime again."@),
        RuntimeFailure::Spawn => ("RUNTIME_FAILED"@, "Pi could not start. Open diagnostics for a safe status code."@),
        RuntimeFailure::Timeout => ("RUNTIME_FAILED"@, "Pi did not respond in time. You can stop and retry."@),
        RuntimeFailure::Command => ("RUNTIME_FAILED"@, "Pi rejected the command. See diagnostics for a safe status code."@),
        RuntimeFailure::Exited | RuntimeFailure::Protocol => ("RUNTIME_FAILED"@, "Pi reported an unexpected protocol error."@),
        RuntimeFailure::NotRunning | RuntimeFailure::Channel => ("RUNTIME_FAILED"@, "The Pi runtime is no longer active. Restart it to continue."@),
        RuntimeFailure::InvalidExtensionUiResponse => ("INVALID_ARGUMENT"@, "The request is not valid."@),
    }
}

pub fn map_runtime_error(error: RuntimeFailure) -> (r: ApiError)
    ensures
        (r.code@, r.message@) == runtime_failure_message(error),
        r.recoverable,
{
    match error {
        RuntimeFailure::Resolve => ApiError::pi_not_found(),
        RuntimeFailure::Spawn => ApiError::runtime_spawn(),
        RuntimeFailure::Timeout => ApiError::runtime_timeout(),
        RuntimeFailure::Command => ApiError::runtime_rejected(),
        RuntimeFailure::Exited | RuntimeFailure::Protocol => ApiError::runtime_protocol(),
        RuntimeFailure::NotRunning | RuntimeFailure::Channel => ApiError::runtime_gone(),
        RuntimeFailure::InvalidExtensionUiResponse => ApiError::invalid(),
    }
}

// ---------------------------------------------------------------------------
// The deterministic fixture runtime

/// An event that crossed the fixture's replay adapter: a contract event, or
/// any other transport event.
pub enum ReplayedEvent {
    Contract(RuntimeEvent),
    /// A streamed piece of the assistant's reply.
    TextDelta(String),
    Other,
}

/// The state of the last lifecycle event among `events`.
pub open spec fn last_replayed_state(events: Seq<ReplayedEvent>) -> Option<RuntimeState>
    decreases events.len(),
{
    if events.len() == 0 {
        None
    } else {
        match events.last() {
            ReplayedEvent::Contract(RuntimeEvent::State(s)) => Some(s.state),
            _ => last_replayed_state(events.drop_last()),
        }
    }
}

pub fn last_replayed_fake_state(events: &[ReplayedEvent]) -> (r: Option<RuntimeState>)
    ensures
        r == last_replayed_state(events@),
{
    let mut i = events.len();
    assert(events@.take(i as int) =~= events@);
    while i > 0
        invariant
            i <= events@.len(),
            last_replayed_state(events@) == last_replayed_state(events@.take(i as int)),
        decreases i,
    {
        assert(events@.take(i as int).last() == events@[i - 1]);
        assert(events@.take(i as int).drop_last() =~= events@.take(i - 1));
        match &events[i - 1] {
            ReplayedEvent::Contract(RuntimeEvent::State(state)) => {
                return Some(state.state);
            },
            _ => {},
        }
        i = i - 1;
    }
    None
}

/// A malformed frame forces `Failed`; otherwise the last replayed lifecycle
/// state must be the expected clean one.
pub fn completed_fake_transport_state(
    events: &[ReplayedEvent],
    protocol_failure: bool,
    expected_clean_state: RuntimeState,
) -> (r: Result<RuntimeState, ApiError>)
    ensures
        protocol_failure ==> r == Ok::<RuntimeState, ApiError>(RuntimeState::Failed),
        !protocol_failure ==> match last_replayed_state(events@) {
            Some(s) if s == expected_clean_state => r == Ok::<RuntimeState, ApiError>(s),
            _ => r is Err && is_runtime_error(r->Err_0),
        },
{
    if protocol_failure {
        return Ok(RuntimeState::Failed);
    }
    match last_replayed_fake_state(events) {
        Some(s) => if s == expected_clean_state {
            Ok(s)
        } else {
            Err(ApiError::runtime())
        },
        None => Err(ApiError::runtime()),
    }
}

/// A deterministic fixture scenario.
#[derive(Debug, Clone, Copy, PartialEq, Eq, Structural)]
pub enum FakeScenario {
    Stream,
    Abort,
    Crash,
    Malformed,
}

pub open spec fn fake_scenario_from_name(name: Seq<char>) -> Option<FakeScenario> {
    if name == "stream"@ {
        Some(FakeScenario::Stream)
    } else if name == "abort"@ {
        Some(FakeScenario::Abort)
    } else if name == "crash"@ {
        Some(FakeScenario::Crash)
    } else if name == "malformed"@ {
        Some(FakeScenario::Malformed)
    } else {
        None
    }
}

/// A fixture request: a known scenario name and a prompt that keeps at
/// least one character once made safe.
pub fn fake_scenario_request(scenario: &str, text: &str) -> (r: Result<(FakeScenario, String), ApiError>)
    ensures
        match fake_scenario_from_name(scenario@) {
            Some(s) => if take_chars(drop_controls(text@), MAX_FAKE_INPUT_CHARS as nat).len() > 0 {
                r matches Ok((rs, rt)) && rs == s && rt@ == take_chars(
                    drop_controls(text@),
                    MAX_FAKE_INPUT_CHARS as nat,
                )
            } else {
                r is Err && is_invalid_error(r->Err_0)
            },
            None => r is Err && is_invalid_error(r->Err_0),
        },
{
    let parsed = if str_eq(scenario, "stream") {
        FakeScenario::Stream
    } else if str_eq(scenario, "abort") {
        FakeScenario::Abort
    } else if str_eq(scenario, "crash") {
        FakeScenario::Crash
    } else if str_eq(scenario, "malformed") {
        FakeScenario::Malformed
    } else {
        return Err(ApiError::invalid());
    };
    let safe = safe_fake_text(text);
    if safe.as_str().is_empty() {
        return Err(ApiError::invalid());
    }
    Ok((parsed, safe))
}

/// `e` is the error that refuses runtime actions in safe mode.
pub open spec fn is_safe_mode_error(e: ApiError) -> bool {
    &&& e.code@ == "NOT_SUPPORTED"@
    &&& e.message@ == "Runtime actions are disabled while PiUI starts in safe mode."@
    &&& e.recoverable
}

/// `e` is the error for a runtime slot that is already taken.
pub open spec fn is_busy_error(e: ApiError) -> bool {
    &&& e.code@ == "RUNTIME_FAILED"@
    &&& e.message@ == "A foundation runtime is already active."@
    &&& e.recoverable
}

/// What a fixture run checks before it observes the session: safe mode
/// refuses every runtime action first; then only a user project (not the
/// private personal workspace) may run one.
pub fn fake_run_gate(safe_mode: bool, personal: bool) -> (r: Result<(), ApiError>)
    ensures
        safe_mode ==> r is Err && is_safe_mode_error(r->Err_0),
        !safe_mode && personal ==> r is Err && is_invalid_error(r->Err_0),
        !safe_mode && !personal ==> r is Ok,
{
    if safe_mode {
        return Err(ApiError::safe_mode());
    }
    if personal {
        return Err(ApiError::invalid());
    }
    Ok(())
}

/// What a fixture run checks once the session's revision was admitted: the
/// fixture slot must be free, and then the request must name a scenario and
/// a prompt as `fake_scenario_request` requires.
pub fn fake_run_request(slot_busy: bool, scenario: &str, text: &str) -> (r: Result<(FakeScenario, String), ApiError>)
    ensures
        slot_busy ==> r is Err && is_busy_error(r->Err_0),
        !slot_busy ==> match fake_scenario_from_name(scenario@) {
            Some(s) => if take_chars(drop_controls(text@), MAX_FAKE_INPUT_CHARS as nat).len() > 0 {
                r matches Ok((rs, rt)) && rs == s && rt@ == take_chars(
                    drop_controls(text@),
                    MAX_FAKE_INPUT_CHARS as nat,
                )
            } else {
                r is Err && is_invalid_error(r->Err_0)
            },
            None => r is Err && is_invalid_error(r->Err_0),
        },
{
    if slot_busy {
        return Err(ApiError::runtime_busy());
    }
    fake_scenario_request(scenario, text)
}

/// A command the fixture run sends after starting the fixture runtime.
#[derive(Debug, Clone, Copy, PartialEq, Eq, Structural)]
pub enum FakeStep {
    Prompt,
    Abort,
    Stop,
}

/// The prompt; then an abort in the abort scenario; then, for stream and
/// abort, a stop that closes the simulated output (the crash and malformed
/// scenarios end their output themselves).
pub open spec fn fake_steps(scenario: FakeScenario) -> Seq<FakeStep> {
    match scenario {
        FakeScenario::Stream => seq![FakeStep::Prompt, FakeStep::Stop],
        FakeScenario::Abort => seq![FakeStep::Prompt, FakeStep::Abort, FakeStep::Stop],
        FakeScenario::Crash | FakeScenario::Malformed => seq![FakeStep::Prompt],
    }
}

pub fn fake_scenario_steps(scenario: FakeScenario) -> (r: Vec<FakeStep>)
    ensures
        r@ == fake_steps(scenario),
{
    let mut steps: Vec<FakeStep> = Vec::new();
    steps.push(FakeStep::Prompt);
    if scenario == FakeScenario::Abort {
        steps.push(FakeStep::Abort);
    }
    if scenario == FakeScenario::Stream || scenario == FakeScenario::Abort {
        steps.push(FakeStep::Stop);
    }
    assert(steps@ =~= fake_steps(scenario));
    steps
}

/// The reply text streamed by the replayed events, in order.
pub open spec fn replayed_text(events: Seq<ReplayedEvent>) -> Seq<char>
    decreases events.len(),
{
    if events.len() == 0 {
        Seq::empty()
    } else {
        replayed_text(events.drop_last()) + match events.last() {
            ReplayedEvent::TextDelta(t) => t@,
            _ => Seq::empty(),
        }
    }
}

pub fn replayed_assistant_text(events: &[ReplayedEvent]) -> (r: String)
    ensures
        r@ == replayed_text(events@),
{
    let mut out = String::new();
    let mut i: usize = 0;
    while i < events.len()
        invariant
            i <= events@.len(),
            out@ == replayed_text(events@.take(i as int)),
        decreases events.len() - i,
    {
        assert(events@.take(i + 1).drop_last() =~= events@.take(i as int));
        match &events[i] {
            ReplayedEvent::TextDelta(t) => push_str(&mut out, t.as_str()),
            _ => {
                assert(out@ + Seq::<char>::empty() =~= out@);
            },
        }
        i = i + 1;
    }
    assert(events@.take(events@.len() as int) =~= events@);
    out
}

/// The state a clean fixture run ends in: failed after a crash, else
/// dormant.
pub open spec fn fake_completion(scenario: FakeScenario) -> RuntimeState {
    if scenario == FakeScenario::Crash {
        RuntimeState::Failed
    } else {
        RuntimeState::Dormant
    }
}

pub fn expected_fake_completion(scenario: FakeScenario) -> (r: RuntimeState)
    ensures
        r == fake_completion(scenario),
{
    if scenario == FakeScenario::Crash {
        RuntimeState::Failed
    } else {
        RuntimeState::Dormant
    }
}

pub open spec fn fake_summary(scenario: FakeScenario) -> Seq<char> {
    match scenario {
        FakeScenario::Stream => "Deterministic stream scenario completed locally."@,
        FakeScenario::Abort => "Deterministic turn was aborted locally."@,
        FakeScenario::Crash => "Deterministic crash scenario completed locally."@,
        FakeScenario::Malformed => "Deterministic malformed-frame scenario completed locally."@,
    }
}

pub fn fake_scenario_summary(scenario: FakeScenario) -> (r: &'static str)
    ensures
        r@ == fake_summary(scenario),
{
    match scenario {
        FakeScenario::Stream => "Deterministic stream scenario completed locally.",
        FakeScenario::Abort => "Deterministic turn was aborted locally.",
        FakeScenario::Crash => "Deterministic crash scenario completed locally.",
        FakeScenario::Malformed => "Deterministic malformed-frame scenario completed locally.",
    }
}

/// `fake-<run>-<part>`.
pub open spec fn fake_block_id(run_id: u64, part: Seq<char>) -> Seq<char> {
    "fake-"@ + crate::text::decimal(run_id as nat) + "-"@ + part
}

fn fake_id(run_id: u64, part: &str) -> (r: String)
    ensures
        r@ == fake_block_id(run_id, part@),
{
    let mut id = String::from_str("fake-");
    crate::text::push_decimal(&mut id, run_id);
    push_str(&mut id, "-");
    push_str(&mut id, part);
    id
}

pub open spec fn fake_block(
    id: Seq<char>,
    parent_id: Option<Seq<char>>,
    kind: Seq<char>,
    text: Option<Seq<char>>,
    label: Seq<char>,
    safe_summary: Option<Seq<char>>,
    status: ApiTimelineStatus,
) -> ApiTimelineBlockView {
    ApiTimelineBlockView {
        id,
        parent_id,
        kind,
        created_at: None,
        text,
        label,
        safe_summary,
        title: None,
        tool_name: None,
        collapsible: false,
        truncated: false,
        fallback: false,
        status,
    }
}

pub open spec fn fake_notice(protocol_failure: bool) -> Seq<char> {
    if protocol_failure {
        "The deterministic fake runtime emitted malformed protocol bytes; no raw bytes were retained."@
    } else {
        "The deterministic fake runtime simulated a process crash; no Pi process was started."@
    }
}

/// The overlay of a fixture run: the user's prompt; the reply under it when
/// one streamed (interrupted in the abort scenario); and a failure notice
/// under it after a protocol failure or a crash.
pub open spec fn fake_blocks(
    run_id: u64,
    scenario: FakeScenario,
    text: Seq<char>,
    assistant: Seq<char>,
    protocol_failure: bool,
) -> Seq<ApiTimelineBlockView> {
    let user_id = fake_block_id(run_id, "user"@);
    let user = fake_block(user_id, None, "user"@, Some(text), "You · fake scenario"@, None, ApiTimelineStatus::Complete);
    let reply = fake_block(
        fake_block_id(run_id, "assistant"@),
        Some(user_id),
        "assistant"@,
        Some(assistant),
        "Pi · fake scenario"@,
        None,
        if scenario == FakeScenario::Abort { ApiTimelineStatus::Interrupted } else { ApiTimelineStatus::Complete },
    );
    let notice = fake_block(
        fake_block_id(run_id, "runtime-notice"@),
        Some(user_id),
        "error"@,
        None,
        "Fake runtime notice"@,
        Some(fake_notice(protocol_failure)),
        ApiTimelineStatus::Failed,
    );
    let with_reply = if assistant.len() > 0 { seq![user, reply] } else { seq![user] };
    if protocol_failure || scenario == FakeScenario::Crash {
        with_reply.push(notice)
    } else {
        with_reply
    }
}

pub fn fake_scenario_blocks(
    run_id: u64,
    scenario: FakeScenario,
    text: String,
    assistant: String,
    protocol_failure: bool,
) -> (r: Vec<ApiTimelineBlock>)
    ensures
        r@.map_values(|b: ApiTimelineBlock| b@) == fake_blocks(run_id, scenario, text@, assistant@, protocol_failure),
{
    let user_id = fake_id(run_id, "user");
    let mut blocks: Vec<ApiTimelineBlock> = Vec::new();
    blocks.push(ApiTimelineBlock {
        id: user_id.clone(),
        parent_id: None,
        kind: "user",
        created_at: None,
        text: Some(text),
        label: "You · fake scenario",
        safe_summary: None,
        title: None,
        tool_name: None,
        collapsible: false,
        truncated: false,
        fallback: false,
        status: ApiTimelineStatus::Complete,
    });
    if !assistant.as_str().is_empty() {
        blocks.push(ApiTimelineBlock {
            id: fake_id(run_id, "assistant"),
            parent_id: Some(user_id.clone()),
            kind: "assistant",
            created_at: None,
            text: Some(assistant),
            label: "Pi · fake scenario",
            safe_summary: None,
            title: None,
            tool_name: None,
            collapsible: false,
            truncated: false,
            fallback: false,
            status: if scenario == FakeScenario::Abort {
                ApiTimelineStatus::Interrupted
            } else {
                ApiTimelineStatus::Complete
            },
        });
    }
    if protocol_failure || scenario == FakeScenario::Crash {
        let notice = if protocol_failure {
            "The deterministic fake runtime emitted malformed protocol bytes; no raw bytes were retained."
        } else {
            "The deterministic fake runtime simulated a process crash; no Pi process was started."
        };
        blocks.push(ApiTimelineBlock {
            id: fake_id(run_id, "runtime-notice"),
            parent_id: Some(user_id),
            kind: "error",
            created_at: None,
            text: None,
            label: "Fake runtime notice",
            safe_summary: Some(notice.to_owned()),
            title: None,
            tool_name: None,
            collapsible: false,
            truncated: false,
            fallback: false,
            status: ApiTimelineStatus::Failed,
        });
    }
    assert(blocks@.map_values(|b: ApiTimelineBlock| b@) =~= fake_blocks(
        run_id,
        scenario,
        text@,
        assistant@,
        protocol_failure,
    ));
    blocks
}

/// A finished fixture run: the reply is what the replayed events streamed,
/// made safe; the runtime's final state comes from the replayed events as
/// `completed_fake_transport_state` decides, and its summary says that no
/// fixture runtime remains. Nothing is written to a session.
pub fn fake_scenario_result(
    run_id: u64,
    scenario: FakeScenario,
    text: String,
    events: &[ReplayedEvent],
    protocol_failure: bool,
    revision: u64,
) -> (r: Result<ApiFakeScenarioResult, ApiError>)
    ensures
        protocol_failure ==> r is Ok,
        !protocol_failure ==> (r is Ok <==> last_replayed_state(events@) == Some(fake_completion(scenario))),
        r is Err ==> is_runtime_error(r->Err_0),
        r matches Ok(res) ==> {
            &&& res.ephemeral
            &&& res.runtime.state@ == lifecycle_label(if protocol_failure { RuntimeState::Failed } else { fake_completion(scenario) })
            &&& res.runtime.runtime_id@ == "fake-runtime"@
            &&& res.runtime.revision == revision
            &&& res.runtime.capabilities.ui_standard_dialogs
            &&& opt_view(res.runtime.safe_summary) == Some(fake_summary(scenario) + " No fake runtime remains active."@)
            &&& res.blocks@.map_values(|b: ApiTimelineBlock| b@) == fake_blocks(
                run_id,
                scenario,
                text@,
                take_chars(drop_controls(replayed_text(events@)), MAX_FAKE_INPUT_CHARS as nat),
                protocol_failure,
            )
        },
{
    let streamed = replayed_assistant_text(events);
    let assistant = safe_fake_text(streamed.as_str());
    let blocks = fake_scenario_blocks(run_id, scenario, text, assistant, protocol_failure);
    let expected = expected_fake_completion(scenario);
    let completed = match completed_fake_transport_state(events, protocol_failure, expected) {
        Ok(state) => state,
        Err(error) => return Err(error),
    };
    let mut summary = String::from_str(fake_scenario_summary(scenario));
    push_str(&mut summary, " No fake runtime remains active.");
    Ok(ApiFakeScenarioResult { runtime: runtime_snapshot(completed, revision, Some(summary)), blocks, ephemeral: true })
}

/// The fixture runtime after its start was replayed: usable only when the
/// last replayed lifecycle event says `Ready`.
pub fn fake_start_snapshot(events: &[ReplayedEvent], revision: u64) -> (r: Result<ApiRuntimeSnapshot, ApiError>)
    ensures
        r is Ok <==> last_replayed_state(events@) == Some(RuntimeState::Ready),
        r is Err ==> is_runtime_error(r->Err_0),
        r matches Ok(snap) ==> {
            &&& snap.runtime_id@ == "fake-runtime"@
            &&& snap.state@ == lifecycle_label(RuntimeState::Ready)
            &&& snap.revision == revision
            &&& opt_view(snap.safe_summary) == Some("Deterministic fake runtime is ready; no Pi process was started."@)
        },
{
    match last_replayed_fake_state(events) {
        Some(state) => if state == RuntimeState::Ready {
            Ok(runtime_snapshot(
                state,
                revision,
                Some(String::from_str("Deterministic fake runtime is ready; no Pi process was started.")),
            ))
        } else {
            Err(ApiError::runtime())
        },
        None => Err(ApiError::runtime()),
    }
}

/// The state a stopped fixture runtime reports: its output must have ended
/// and its last replayed lifecycle event must say `Dormant`.
pub fn fake_stop_state(events: &[ReplayedEvent], saw_eof: bool) -> (r: Result<RuntimeState, ApiError>)
    ensures
        r is Ok <==> saw_eof && last_replayed_state(events@) == Some(RuntimeState::Dormant),
        r is Ok ==> r == Ok::<RuntimeState, ApiError>(RuntimeState::Dormant),
        r is Err ==> is_runtime_error(r->Err_0),
{
    if !saw_eof {
        return Err(ApiError::runtime());
    }
    match last_replayed_fake_state(events) {
        Some(state) => if state == RuntimeState::Dormant {
            Ok(state)
        } else {
            Err(ApiError::runtime())
        },
        None => Err(ApiError::runtime()),
    }
}

/// The snapshot of a stopped fixture runtime; its summary says whether the
/// session's admission was found invalid afterwards.
pub fn fake_stopped_snapshot(state: RuntimeState, revision: u64, admission_invalidated: bool) -> (r: ApiRuntimeSnapshot)
    ensures
        r.runtime_id@ == "fake-runtime"@,
        r.state@ == lifecycle_label(state),
        r.revision == revision,
        opt_view(r.safe_summary) == Some(if admission_invalidated {
            "Fake runtime stopped after session admission invalidation; PiUI did not merge session JSONL."@
        } else {
            "Fake runtime stopped. Real Pi descendant containment is not exercised here."@
        }),
{
    let summary = if admission_invalidated {
        "Fake runtime stopped after session admission invalidation; PiUI did not merge session JSONL."
    } else {
        "Fake runtime stopped. Real Pi descendant containment is not exercised here."
    };
    runtime_snapshot(state, revision, Some(summary.to_owned()))
}

/// The snapshot handed out when a live runtime starts: only a usable state
/// (`Ready` or `Running`) is exposed, with the launch label in its summary.
pub fn live_start_snapshot(runtime_id: &str, state: RuntimeState, revision: u64, launch_label: &str) -> (r: Result<ApiRuntimeSnapshot, ApiError>)
    ensures
        r is Ok <==> (state == RuntimeState::Ready || state == RuntimeState::Running),
        r matches Err(e) ==> e.code@ == "RUNTIME_FAILED"@ && e.message@ == "Pi reported an unexpected protocol error."@,
        r matches Ok(snap) ==> {
            &&& snap.runtime_id@ == runtime_id@
            &&& snap.state@ == lifecycle_label(state)
            &&& snap.revision == revision
            &&& !snap.capabilities.ui_standard_dialogs
            &&& opt_view(snap.safe_summary) == Some("Pi runtime ready ("@ + launch_label@ + ")."@)
        },
{
    if !runtime_state_is_usable(state) {
        return Err(ApiError::runtime_protocol());
    }
    let mut summary = String::from_str("Pi runtime ready (");
    push_str(&mut summary, launch_label);
    push_str(&mut summary, ").");
    Ok(runtime_snapshot_named(runtime_id, state, revision, Some(summary)))
}

/// A verification failure that revokes the session or its project (a
/// conflict, an unavailable project, withdrawn trust) retires the project's
/// live runtime.
pub fn retires_project_runtime(error: &ApiError) -> (r: bool)
    ensures
        r == (error.code@ == "CONFLICT"@ || error.code@ == "PROJECT_UNAVAILABLE"@ || error.code@ == "NOT_TRUSTED"@),
{
    str_eq(error.code, "CONFLICT") || str_eq(error.code, "PROJECT_UNAVAILABLE") || str_eq(error.code, "NOT_TRUSTED")
}

/// Whether a request may act on the live runtime in the slot: the id must
/// have a runtime id's shape and name the runtime that holds the slot.
pub fn live_slot_request(slot_runtime_id: Option<&str>, runtime_id: &str) -> (r: Result<(), ApiError>)
    ensures
        !runtime_id_shape(runtime_id@) ==> r is Err && is_invalid_error(r->Err_0),
        runtime_id_shape(runtime_id@) ==> match slot_runtime_id {
            Some(id) if id@ == runtime_id@ => r is Ok,
            _ => r matches Err(e) && e.code@ == "RUNTIME_FAILED"@
                && e.message@ == "The Pi runtime is no longer active. Restart it to continue."@,
        },
{
    if !valid_runtime_id(runtime_id) {
        return Err(ApiError::invalid());
    }
    match slot_runtime_id {
        Some(id) => if str_eq(id, runtime_id) {
            Ok(())
        } else {
            Err(ApiError::runtime_gone())
        },
        None => Err(ApiError::runtime_gone()),
    }
}

/// The capabilities a runtime advertises.
#[derive(Debug, Clone, Copy, PartialEq, Eq, Structural)]
pub struct ApiRuntimeCapabilities {
    pub rpc: bool,
    pub session_tree_read: bool,
    pub session_tree_navigate: bool,
    pub auth_headless: bool,
    pub ui_standard_dialogs: bool,
}

#[derive(Debug, Clone)]
pub struct ApiRuntimeSnapshot {
    pub runtime_id: String,
    pub state: &'static str,
    pub revision: u64,
    pub capabilities: ApiRuntimeCapabilities,
    pub safe_summary: Option<String>,
}

/// A live runtime's snapshot: RPC and tree reading, but no tree navigation,
/// headless authentication or standard dialogs.
pub fn runtime_snapshot_named(runtime_id: &str, state: RuntimeState, revision: u64, summary: Option<String>) -> (r: ApiRuntimeSnapshot)
    ensures
        r.runtime_id@ == runtime_id@,
        r.state@ == lifecycle_label(state),
        r.revision == revision,
        r.capabilities == (ApiRuntimeCapabilities {
            rpc: true,
            session_tree_read: true,
            session_tree_navigate: false,
            auth_headless: false,
            ui_standard_dialogs: false,
        }),
        r.safe_summary == summary,
{
    ApiRuntimeSnapshot {
        runtime_id: runtime_id.to_owned(),
        state: runtime_state(state),
        revision,
        capabilities: ApiRuntimeCapabilities {
            rpc: true,
            session_tree_read: true,
            session_tree_navigate: false,
            auth_headless: false,
            ui_standard_dialogs: false,
        },
        safe_summary: summary,
    }
}

/// The deterministic fixture's snapshot, which advertises standard dialogs.
pub fn runtime_snapshot(state: RuntimeState, revision: u64, summary: Option<String>) -> (r: ApiRuntimeSnapshot)
    ensures
        r.runtime_id@ == "fake-runtime"@,
        r.state@ == lifecycle_label(state),
        r.revision == revision,
        r.capabilities == (ApiRuntimeCapabilities {
            rpc: true,
            session_tree_read: true,
            session_tree_navigate: false,
            auth_headless: false,
            ui_standard_dialogs: true,
        }),
        r.safe_summary == summary,
{
    let mut snapshot = runtime_snapshot_named("fake-runtime", state, revision, summary);
    snapshot.capabilities.ui_standard_dialogs = true;
    snapshot
}

// ---------------------------------------------------------------------------
// Global extension resources

#[derive(Debug, Clone, Copy, PartialEq, Eq, Structural)]
pub enum ExtensionOrigin {
    TopLevel,
    Package,
}

/// A global Pi extension as resolved by Pi's settings: its name, the text of
/// its path, its package root when it comes from a package, its origin, and
/// whether it is enabled. The path never leaves the host.
pub struct ExtensionResource {
    pub name: String,
    pub path: String,
    pub package_root: Option<String>,
    pub origin: ExtensionOrigin,
    pub enabled: bool,
}

#[derive(Debug)]
pub struct ApiExtensionSummary {
    pub id: String,
    pub name: String,
    pub source: &'static str,
    pub enabled: bool,
}

/// The opaque id of an extension: `ext-` and the first 16 bytes of the
/// SHA-256 digest of its path text, in lower-case hexadecimal.
pub open spec fn extension_id_of(path: Seq<char>) -> Seq<char> {
    "ext-"@ + sha256_hex_of(encode_utf8(path)).take(32)
}

pub fn extension_resource_id(path: &str) -> (r: String)
    ensures
        r@ == extension_id_of(path@),
        r@.len() == 36,
{
    let digest = sha256(path.as_bytes());
    let chars = str_chars(digest.as_str());
    let mut id = String::new();
    push_str(&mut id, "ext-");
    let suffix = string_from_range(&chars, 0, 32);
    push_str(&mut id, suffix.as_str());
    proof {
        reveal_strlit("ext-");
    }
    assert(id@ =~= extension_id_of(path@));
    id
}

pub open spec fn origin_label(o: ExtensionOrigin) -> Seq<char> {
    match o {
        ExtensionOrigin::TopLevel => "Global"@,
        ExtensionOrigin::Package => "Package"@,
    }
}

/// The UI list of extensions, in order, each under its opaque id.
pub fn api_extensions(resources: Vec<ExtensionResource>) -> (r: Vec<ApiExtensionSummary>)
    ensures
        r@.len() == resources@.len(),
        forall|i: int| 0 <= i < r@.len() ==> {
            &&& (#[trigger] r@[i]).id@ == extension_id_of(resources@[i].path@)
            &&& r@[i].name@ == resources@[i].name@
            &&& r@[i].source@ == origin_label(resources@[i].origin)
            &&& r@[i].enabled == resources@[i].enabled
        },
{
    let ghost input = resources@;
    let mut out: Vec<ApiExtensionSummary> = Vec::new();
    for resource in it: resources.into_iter()
        invariant
            it.seq() == input,
            out@.len() == it.index(),
            forall|i: int| 0 <= i < out@.len() ==> {
                &&& (#[trigger] out@[i]).id@ == extension_id_of(input[i].path@)
                &&& out@[i].name@ == input[i].name@
                &&& out@[i].source@ == origin_label(input[i].origin)
                &&& out@[i].enabled == input[i].enabled
            },
    {
        let id = extension_resource_id(resource.path.as_str());
        let source = match resource.origin {
            ExtensionOrigin::TopLevel => "Global",
            ExtensionOrigin::Package => "Package",
        };
        out.push(ApiExtensionSummary { id, name: resource.name, source, enabled: resource.enabled });
    }
    out
}

/// The extension a request names: the id must be shaped as an extension id
/// (36 bytes, starting `ext-`) and match a current resource; the first
/// match is taken.
pub fn find_extension(resources: &[ExtensionResource], extension_id: &str) -> (r: Result<usize, ApiError>)
    ensures
        !(encode_utf8(extension_id@).len() == 36 && "ext-"@.is_prefix_of(extension_id@)) ==> r is Err && is_invalid_error(r->Err_0),
        encode_utf8(extension_id@).len() == 36 && "ext-"@.is_prefix_of(extension_id@) ==> match r {
            Ok(k) => k < resources@.len() && extension_id_of(resources@[k as int].path@) == extension_id@
                && forall|j: int| 0 <= j < k ==> extension_id_of(#[trigger] resources@[j].path@) != extension_id@,
            Err(e) => e.code@ == "NOT_FOUND"@ && forall|j: int| 0 <= j < resources@.len() ==> extension_id_of(#[trigger] resources@[j].path@) != extension_id@,
        },
{
    let chars = str_chars(extension_id);
    proof {
        reveal_strlit("ext-");
    }
    let blen = extension_id.as_bytes().len();
    assert(blen == encode_utf8(extension_id@).len());
    let prefix_ok = chars.len() >= 4 && chars[0] == 'e' && chars[1] == 'x' && chars[2] == 't' && chars[3] == '-';
    assert(prefix_ok == "ext-"@.is_prefix_of(extension_id@)) by {
        assert("ext-"@ =~= seq!['e', 'x', 't', '-']);
        if chars@.len() >= 4 {
            assert(extension_id@.subrange(0, 4) =~= seq![chars@[0], chars@[1], chars@[2], chars@[3]]);
        }
    }
    let shaped = blen == 36 && prefix_ok;
    if !shaped {
        return Err(ApiError::invalid());
    }
    let mut i: usize = 0;
    while i < resources.len()
        invariant
            i <= resources@.len(),
            encode_utf8(extension_id@).len() == 36 && "ext-"@.is_prefix_of(extension_id@),
            forall|j: int| 0 <= j < i ==> extension_id_of(#[trigger] resources@[j].path@) != extension_id@,
        decreases resources.len() - i,
    {
        let id = extension_resource_id(resources[i].path.as_str());
        if str_eq(id.as_str(), extension_id) {
            return Ok(i);
        }
        i = i + 1;
    }
    Err(ApiError::not_found())
}

// ---------------------------------------------------------------------------
// The other values that cross to the UI

/// The launch snapshot.
#[derive(Debug)]
pub struct ApiSnapshot {
    pub app_version: &'static str,
    pub safe_mode: bool,
    pub preferences: ApiPreferences,
    pub projects: Vec<ApiProjectSummary>,
    pub selected_project_id: Option<String>,
    pub selected_session_id: Option<String>,
}

/// A display-safe snapshot of a session catalog. `scope` is `project` or
/// `personal`; the personal scope leaves out the host-owned project id.
#[derive(Debug, Clone)]
pub struct ApiSessionCatalogSnapshot {
    pub protocol: u8,
    pub scope: &'static str,
    pub project_id: Option<String>,
    pub sequence: u64,
    pub freshness: &'static str,
    pub sessions: Vec<ApiSessionSummary>,
}

/// Versioned catalog events; they carry only opaque ids and display-safe
/// summaries.
#[derive(Debug, Clone)]
pub enum ApiSessionCatalogEvent {
    RefreshStarted { protocol: u8, scope: &'static str, project_id: Option<String>, sequence: u64 },
    Snapshot { protocol: u8, snapshot: ApiSessionCatalogSnapshot },
    RefreshFailed {
        protocol: u8,
        scope: &'static str,
        project_id: Option<String>,
        sequence: u64,
        safe_summary: &'static str,
    },
}

#[derive(Debug)]
pub struct ApiTimelinePage {
    pub projection_version: u8,
    pub session_id: String,
    pub blocks: Vec<ApiTimelineBlock>,
    pub tree: ApiSessionTree,
    pub file_revision: String,
    pub range_start: usize,
    pub total_blocks: usize,
    pub older_cursor: Option<String>,
    pub stale_cursor: bool,
}

/// The blocks of a fixture scenario: an ephemeral overlay, never session
/// entries.
#[derive(Debug)]
pub struct ApiFakeScenarioResult {
    pub runtime: ApiRuntimeSnapshot,
    pub blocks: Vec<ApiTimelineBlock>,
    pub ephemeral: bool,
}

/// Static eligibility of a system Pi; it does not mean Pi was launched.
#[derive(Debug, Clone)]
pub struct ApiSystemPiProbe {
    pub eligibility: &'static str,
    pub managed_runtime_required: bool,
    pub external_auth_guidance: bool,
}

// ---------------------------------------------------------------------------
// Timeline pages

/// Blocks per page when a request names no limit.
pub const DEFAULT_TIMELINE_PAGE_SIZE: usize = 100;
/// Longest cursor token accepted, in bytes.
pub const MAX_TIMELINE_CURSOR_BYTES: usize = 64;

pub open spec fn api_blocks_spec(bs: Seq<BlockView>) -> Seq<ApiTimelineBlockView> {
    bs.map_values(|b: BlockView| api_block_spec(b))
}

pub open spec fn api_blocks_view(v: Seq<ApiTimelineBlock>) -> Seq<ApiTimelineBlockView> {
    v.map_values(|b: ApiTimelineBlock| b@)
}

/// The UI form of each block, in order.
pub fn api_blocks(blocks: &[GenericTimelineBlock]) -> (r: Vec<ApiTimelineBlock>)
    ensures
        api_blocks_view(r@) == api_blocks_spec(blocks_view(blocks@)),
{
    let mut out: Vec<ApiTimelineBlock> = Vec::new();
    let mut i: usize = 0;
    while i < blocks.len()
        invariant
            i <= blocks@.len(),
            api_blocks_view(out@) == api_blocks_spec(blocks_view(blocks@).take(i as int)),
        decreases blocks.len() - i,
    {
        let ghost before = out@;
        out.push(ApiTimelineBlock::from(&blocks[i]));
        proof {
            assert(blocks_view(blocks@).take(i + 1) =~= blocks_view(blocks@).take(i as int).push(blocks@[i as int]@));
            assert(api_blocks_view(out@) =~= api_blocks_view(before).push(out@.last()@));
            assert(api_blocks_spec(blocks_view(blocks@).take(i + 1)) =~= api_blocks_spec(blocks_view(blocks@).take(i as int)).push(api_block_spec(blocks@[i as int]@)));
        }
        i = i + 1;
    }
    assert(blocks_view(blocks@).take(blocks@.len() as int) =~= blocks_view(blocks@));
    out
}

/// The latest bounded page of blocks, as the legacy timeline read returns it.
pub fn latest_timeline_blocks(report: &ScanReport) -> (r: Vec<ApiTimelineBlock>)
    ensures
        api_blocks_view(r@) == api_blocks_spec(
            slice_before(blocks_view(report.timeline_blocks@), report.timeline_blocks@.len(), DEFAULT_TIMELINE_PAGE_SIZE as nat).blocks,
        ),
{
    let slice = report.timeline_slice_latest(DEFAULT_TIMELINE_PAGE_SIZE);
    api_blocks(slice.blocks.as_slice())
}

/// A validated page request: the limit and, for an older page, the cursor's
/// record.
pub struct TimelineRequest {
    pub limit: usize,
    pub record: Option<TimelineCursorRecord>,
}

pub open spec fn requested_limit(limit: Option<usize>) -> usize {
    match limit {
        Some(l) => l,
        None => DEFAULT_TIMELINE_PAGE_SIZE,
    }
}

/// Checks a page request: the limit must be positive, a cursor must be one
/// to `MAX_TIMELINE_CURSOR_BYTES` bytes long, name a remembered record, and
/// that record must belong to this project and session.
pub fn timeline_request(
    cursors: &TimelineCursorStore,
    project_id: &str,
    session_id: &str,
    cursor: Option<&str>,
    limit: Option<usize>,
) -> (r: Result<TimelineRequest, ApiError>)
    ensures
        requested_limit(limit) == 0 ==> r is Err && is_invalid_error(r->Err_0),
        requested_limit(limit) > 0 ==> match cursor {
            None => r matches Ok(q) && q.limit == requested_limit(limit) && q.record is None,
            Some(c) => {
                let n = encode_utf8(c@).len();
                if n == 0 || n > MAX_TIMELINE_CURSOR_BYTES {
                    r is Err && is_invalid_error(r->Err_0)
                } else {
                    match cursors.record_of(c@) {
                        Some(rec) => if rec.project_id@ == project_id@ && rec.session_id@ == session_id@ {
                            r matches Ok(q) && q.limit == requested_limit(limit) && q.record == Some(rec)
                        } else {
                            r is Err && is_invalid_error(r->Err_0)
                        },
                        None => r is Err && is_invalid_error(r->Err_0),
                    }
                }
            },
        },
{
    let limit = match limit {
        Some(l) => l,
        None => DEFAULT_TIMELINE_PAGE_SIZE,
    };
    if limit == 0 {
        return Err(ApiError::invalid());
    }
    match cursor {
        None => Ok(TimelineRequest { limit, record: None }),
        Some(token) => {
            let n = token.as_bytes().len();
            assert(n == encode_utf8(token@).len());
            if n == 0 || n > MAX_TIMELINE_CURSOR_BYTES {
                return Err(ApiError::invalid());
            }
            match cursors.get(token) {
                None => Err(ApiError::invalid()),
                Some(record) => {
                    if !str_eq(record.project_id.as_str(), project_id) || !str_eq(record.session_id.as_str(), session_id) {
                        Err(ApiError::invalid())
                    } else {
                        Ok(TimelineRequest { limit, record: Some(record) })
                    }
                },
            }
        },
    }
}

/// `rec` continues the page before `older_before` of this project, session
/// and revision.
pub open spec fn cursor_for(rec: TimelineCursorRecord, project_id: Seq<char>, session_id: Seq<char>, file_revision: Seq<char>, older_before: usize) -> bool {
    &&& rec.project_id@ == project_id
    &&& rec.session_id@ == session_id
    &&& rec.file_revision@ == file_revision
    &&& rec.older_before == older_before
}

/// Issues a cursor for the page before `older_before`; at the first block
/// there is no older page and nothing is remembered.
pub fn issue_older_timeline_cursor(
    cursors: &mut TimelineCursorStore,
    project_id: &str,
    session_id: &str,
    file_revision: &str,
    older_before: usize,
) -> (r: Option<String>)
    requires
        old(cursors).wf(),
    ensures
        final(cursors).wf(),
        older_before == 0 ==> r is None && *final(cursors) == *old(cursors),
        older_before > 0 ==> match r {
            Some(t) => match final(cursors).record_of(t@) {
                Some(rec) => cursor_for(rec, project_id@, session_id@, file_revision@, older_before),
                None => false,
            },
            None => false,
        },
{
    if older_before == 0 {
        return None;
    }
    let record = TimelineCursorRecord {
        project_id: project_id.to_owned(),
        session_id: session_id.to_owned(),
        file_revision: file_revision.to_owned(),
        older_before,
    };
    Some(cursors.insert(record))
}

/// The end of the page a request asks for: before its cursor's position, or
/// the end of the timeline.
pub open spec fn page_end(record: Option<TimelineCursorRecord>, total: nat) -> nat {
    match record {
        Some(rec) => rec.older_before as nat,
        None => total,
    }
}

/// Where a page that ends at `end` of `total` blocks starts: at most
/// `limit` blocks, and never more than the slice bound, before the end
/// clamped to the total.
pub open spec fn page_start(end: nat, total: nat, limit: nat) -> nat {
    let e = if end < total { end } else { total };
    let n = if limit < TIMELINE_SLICE_MAX_LIMIT { limit } else { TIMELINE_SLICE_MAX_LIMIT as nat };
    if e >= n { (e - n) as nat } else { 0 }
}

/// A timeline page of `report`. A cursor issued for another revision is
/// stale: the page then carries no blocks and no further cursor. Otherwise
/// it holds the bounded slice before the requested end, and a cursor for the
/// page before it unless the slice starts at the first block.
pub fn timeline_page_from_report(
    cursors: &mut TimelineCursorStore,
    project_id: &str,
    session_id: &str,
    record: Option<TimelineCursorRecord>,
    limit: usize,
    report: &ScanReport,
) -> (r: ApiTimelinePage)
    requires
        old(cursors).wf(),
    ensures
        final(cursors).wf(),
        r.projection_version == 2,
        r.session_id@ == session_id@,
        r.file_revision@ == report.file_revision@,
        r.tree@ == api_tree_spec(
            tree_view(report.tree@),
            strings_view(report.roots@),
            opt_view(report.current_leaf_id),
            report.diagnostics@.len(),
            strings_view(report.orphan_ids@),
            strings_view(report.cycle_ids@),
        ),
        match record {
            Some(rec) if rec.file_revision@ != report.file_revision@ => {
                &&& r.stale_cursor
                &&& r.blocks@.len() == 0
                &&& r.range_start == 0
                &&& r.total_blocks == report.timeline_blocks@.len()
                &&& r.older_cursor is None
                &&& *final(cursors) == *old(cursors)
            },
            _ => {
                let slice = slice_before(blocks_view(report.timeline_blocks@), page_end(record, report.timeline_blocks@.len()), limit as nat);
                let end = page_end(record, report.timeline_blocks@.len());
                let total = report.timeline_blocks@.len();
                &&& !r.stale_cursor
                &&& api_blocks_view(r.blocks@) == api_blocks_spec(slice.blocks)
                &&& r.range_start == slice.start
                &&& r.total_blocks == slice.total
                &&& r.range_start == page_start(end, total, limit as nat)
                &&& r.blocks@.len() == (if end < total { end } else { total }) - r.range_start
                &&& r.total_blocks == total
                &&& (r.older_cursor is Some <==> r.range_start > 0)
                &&& slice.start == 0 ==> r.older_cursor is None && *final(cursors) == *old(cursors)
                &&& slice.start > 0 ==> match r.older_cursor {
                    Some(t) => match final(cursors).record_of(t@) {
                        Some(rec) => cursor_for(rec, project_id@, session_id@, report.file_revision@, slice.start as usize),
                        None => false,
                    },
                    None => false,
                }
            },
        },
{
    let tree = tree_from_report(report);
    let stale = match &record {
        Some(rec) => !str_eq(rec.file_revision.as_str(), report.file_revision.as_str()),
        None => false,
    };
    if stale {
        return ApiTimelinePage {
            projection_version: 2,
            session_id: session_id.to_owned(),
            blocks: Vec::new(),
            tree,
            file_revision: report.file_revision.clone(),
            range_start: 0,
            total_blocks: report.timeline_blocks.len(),
            older_cursor: None,
            stale_cursor: true,
        };
    }
    let slice = match &record {
        Some(rec) => report.timeline_slice_older(rec.older_before, limit),
        None => report.timeline_slice_latest(limit),
    };
    let older_cursor = issue_older_timeline_cursor(
        cursors,
        project_id,
        session_id,
        report.file_revision.as_str(),
        slice.start,
    );
    let blocks = api_blocks(slice.blocks.as_slice());
    proof {
        assert(api_blocks_view(blocks@).len() == blocks@.len());
        assert(api_blocks_spec(blocks_view(slice.blocks@)).len() == blocks_view(slice.blocks@).len());
    }
    ApiTimelinePage {
        projection_version: 2,
        session_id: session_id.to_owned(),
        blocks,
        tree,
        file_revision: report.file_revision.clone(),
        range_start: slice.start,
        total_blocks: slice.total,
        older_cursor,
        stale_cursor: false,
    }
}

} // verus!
