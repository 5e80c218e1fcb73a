//! Path-safe catalog records, their stored spellings, and their projection
//! to the host contract.
use vstd::prelude::*;
use crate::contracts::{
    EntryId, ModelRef, ProjectId, ProjectTrustState, SessionId, SessionParseState,
    SessionTitleSource, ProjectSummary as ContractProjectSummary,
    SessionSummary as ContractSessionSummary, SessionProjection as ContractSessionProjection,
};
use crate::report::{ParseState, ScanReport};
use crate::scan::PREVIEW_LIMIT;
use crate::text::{safe_text, safe_text_spec, str_eq, opt_view, str_chars, string_from_range, take_chars, push_str, signed_decimal, i64_to_decimal};

verus! {

/// Errors of the index that the library itself decides.
#[derive(Clone, Copy, Debug, PartialEq, Eq, Structural)]
pub enum IndexError {
    NotDirectory,
    ProjectIdentityUnavailable,
    ProjectNotRegistered,
    ProjectDiscoveryGenerationUnavailable,
    InvalidProjectName,
    InvalidSessionSearchQuery,
    SessionSearchProjectLimitExceeded,
    SessionIdentityUnavailable,
    SessionIdentityChanged,
    /// A stored value is invalid; the field is named.
    InvalidStoredValue(StoredField),
}

/// Fields whose stored spelling is validated.
#[derive(Clone, Copy, Debug, PartialEq, Eq, Structural)]
pub enum StoredField {
    TrustState,
    TitleSource,
    ParseState,
    Pinned,
}

#[derive(Clone, Copy, Debug, PartialEq, Eq, Structural)]
pub enum TrustState {
    Unknown,
    Trusted,
    Restricted,
}

pub open spec fn trust_name(t: TrustState) -> Seq<char> {
    match t {
        TrustState::Unknown => "unknown"@,
        TrustState::Trusted => "trusted"@,
        TrustState::Restricted => "restricted"@,
    }
}

pub open spec fn trust_from_name(s: Seq<char>) -> Option<TrustState> {
    if s == "unknown"@ {
        Some(TrustState::Unknown)
    } else if s == "trusted"@ {
        Some(TrustState::Trusted)
    } else if s == "restricted"@ {
        Some(TrustState::Restricted)
    } else {
        None
    }
}

pub open spec fn title_source_from_name(s: Seq<char>) -> Option<TitleSource> {
    if s == "pi-name"@ {
        Some(TitleSource::PiName)
    } else if s == "first-user-message"@ {
        Some(TitleSource::FirstUserMessage)
    } else if s == "date-id"@ {
        Some(TitleSource::DateId)
    } else if s == "ui-alias"@ {
        Some(TitleSource::UiAlias)
    } else {
        None
    }
}

pub open spec fn parse_state_from_name(s: Seq<char>) -> Option<ParseState> {
    if s == "healthy"@ {
        Some(ParseState::Healthy)
    } else if s == "partial"@ {
        Some(ParseState::Partial)
    } else if s == "unsupported"@ {
        Some(ParseState::Unsupported)
    } else if s == "corrupt"@ {
        Some(ParseState::Corrupt)
    } else {
        None
    }
}

impl TrustState {
    pub fn as_db(self) -> (r: &'static str)
        ensures
            r@ == trust_name(self),
    {
        match self {
            TrustState::Unknown => "unknown",
            TrustState::Trusted => "trusted",
            TrustState::Restricted => "restricted",
        }
    }

    pub fn from_db(value: &str) -> (r: Result<TrustState, IndexError>)
        ensures
            r == match trust_from_name(value@) {
                Some(t) => Ok::<TrustState, IndexError>(t),
                None => Err(IndexError::InvalidStoredValue(StoredField::TrustState)),
            },
    {
        if str_eq(value, "unknown") {
            Ok(TrustState::Unknown)
        } else if str_eq(value, "trusted") {
            Ok(TrustState::Trusted)
        } else if str_eq(value, "restricted") {
            Ok(TrustState::Restricted)
        } else {
            Err(IndexError::InvalidStoredValue(StoredField::TrustState))
        }
    }
}

#[derive(Clone, Copy, Debug, PartialEq, Eq, Structural)]
pub enum TitleSource {
    PiName,
    FirstUserMessage,
    DateId,
    UiAlias,
}

pub open spec fn title_source_name(t: TitleSource) -> Seq<char> {
    match t {
        TitleSource::PiName => "pi-name"@,
        TitleSource::FirstUserMessage => "first-user-message"@,
        TitleSource::DateId => "date-id"@,
        TitleSource::UiAlias => "ui-alias"@,
    }
}

impl TitleSource {
    pub fn as_db(self) -> (r: &'static str)
        ensures
            r@ == title_source_name(self),
    {
        match self {
            TitleSource::PiName => "pi-name",
            TitleSource::FirstUserMessage => "first-user-message",
            TitleSource::DateId => "date-id",
            TitleSource::UiAlias => "ui-alias",
        }
    }

    pub fn from_db(value: &str) -> (r: Result<TitleSource, IndexError>)
        ensures
            r == match title_source_from_name(value@) {
                Some(t) => Ok::<TitleSource, IndexError>(t),
                None => Err(IndexError::InvalidStoredValue(StoredField::TitleSource)),
            },
    {
        if str_eq(value, "pi-name") {
            Ok(TitleSource::PiName)
        } else if str_eq(value, "first-user-message") {
            Ok(TitleSource::FirstUserMessage)
        } else if str_eq(value, "date-id") {
            Ok(TitleSource::DateId)
        } else if str_eq(value, "ui-alias") {
            Ok(TitleSource::UiAlias)
        } else {
            Err(IndexError::InvalidStoredValue(StoredField::TitleSource))
        }
    }
}

proof fn lemma_title_names_distinct()
    ensures
        "pi-name"@ != "first-user-message"@,
        "pi-name"@ != "date-id"@,
        "pi-name"@ != "ui-alias"@,
        "first-user-message"@ != "date-id"@,
        "first-user-message"@ != "ui-alias"@,
        "date-id"@ != "ui-alias"@,
{
    reveal_strlit("pi-name");
    reveal_strlit("first-user-message");
    reveal_strlit("date-id");
    reveal_strlit("ui-alias");
    assert("pi-name"@.len() != "first-user-message"@.len());
    assert("pi-name"@[0] != "date-id"@[0]);
    assert("pi-name"@[0] != "ui-alias"@[0]);
    assert("first-user-message"@.len() != "date-id"@.len());
    assert("first-user-message"@.len() != "ui-alias"@.len());
    assert("date-id"@[0] != "ui-alias"@[0]);
}

pub open spec fn parse_state_name(s: ParseState) -> Seq<char> {
    match s {
        ParseState::Healthy => "healthy"@,
        ParseState::Partial => "partial"@,
        ParseState::Unsupported => "unsupported"@,
        ParseState::Corrupt => "corrupt"@,
    }
}

pub fn parse_state_db(state: ParseState) -> (r: &'static str)
    ensures
        r@ == parse_state_name(state),
{
    match state {
        ParseState::Healthy => "healthy",
        ParseState::Partial => "partial",
        ParseState::Unsupported => "unsupported",
        ParseState::Corrupt => "corrupt",
    }
}

proof fn lemma_parse_names_distinct()
    ensures
        "healthy"@ != "partial"@,
        "healthy"@ != "unsupported"@,
        "healthy"@ != "corrupt"@,
        "partial"@ != "unsupported"@,
        "partial"@ != "corrupt"@,
        "unsupported"@ != "corrupt"@,
{
    reveal_strlit("healthy");
    reveal_strlit("partial");
    reveal_strlit("unsupported");
    reveal_strlit("corrupt");
    assert("healthy"@[0] != "partial"@[0]);
    assert("healthy"@[0] != "unsupported"@[0]);
    assert("healthy"@[0] != "corrupt"@[0]);
    assert("partial"@[0] != "unsupported"@[0]);
    assert("partial"@[0] != "corrupt"@[0]);
    assert("unsupported"@[0] != "corrupt"@[0]);
}

pub fn parse_state_from_db(value: &str) -> (r: Result<ParseState, IndexError>)
    ensures
        r == match parse_state_from_name(value@) {
            Some(s) => Ok::<ParseState, IndexError>(s),
            None => Err(IndexError::InvalidStoredValue(StoredField::ParseState)),
        },
{
    if str_eq(value, "healthy") {
        Ok(ParseState::Healthy)
    } else if str_eq(value, "partial") {
        Ok(ParseState::Partial)
    } else if str_eq(value, "unsupported") {
        Ok(ParseState::Unsupported)
    } else if str_eq(value, "corrupt") {
        Ok(ParseState::Corrupt)
    } else {
        Err(IndexError::InvalidStoredValue(StoredField::ParseState))
    }
}

/// A stored spelling reads back as the value that was stored.
pub proof fn lemma_stored_spellings_round_trip(t: TrustState, s: TitleSource, p: ParseState)
    ensures
        trust_from_name(trust_name(t)) == Some(t),
        title_source_from_name(title_source_name(s)) == Some(s),
        parse_state_from_name(parse_state_name(p)) == Some(p),
{
    lemma_title_names_distinct();
    lemma_parse_names_distinct();
    reveal_strlit("unknown");
    reveal_strlit("trusted");
    reveal_strlit("restricted");
    assert("unknown"@[0] != "trusted"@[0]);
    assert("unknown"@[0] != "restricted"@[0]);
    assert("trusted"@[0] != "restricted"@[0]);
}

/// Path-safe project summary for the UI.
#[derive(Clone, Debug, PartialEq, Eq)]
pub struct ProjectSummary {
    pub id: String,
    pub name: String,
    pub display_path: String,
    pub trust_state: TrustState,
    pub pinned: bool,
    pub missing: bool,
    pub last_opened_at: Option<i64>,
}

/// Path-safe session list entry.
#[derive(Clone, Debug, PartialEq, Eq)]
pub struct SessionSummary {
    pub id: String,
    pub project_id: Option<String>,
    pub title: String,
    pub title_source: TitleSource,
    pub created_at: Option<String>,
    pub updated_at: Option<String>,
    pub preview: Option<String>,
    pub entry_count: usize,
    pub branch_count: Option<usize>,
    pub parse_state: ParseState,
    pub model_ref: Option<String>,
}

pub open spec fn contract_trust(t: TrustState) -> ProjectTrustState {
    match t {
        TrustState::Unknown => ProjectTrustState::Unknown,
        TrustState::Trusted => ProjectTrustState::Trusted,
        TrustState::Restricted => ProjectTrustState::Restricted,
    }
}

pub open spec fn contract_parse_state_spec(s: ParseState) -> SessionParseState {
    match s {
        ParseState::Healthy => SessionParseState::Healthy,
        ParseState::Partial => SessionParseState::Partial,
        ParseState::Unsupported => SessionParseState::Unsupported,
        ParseState::Corrupt => SessionParseState::Corrupt,
    }
}

pub fn contract_parse_state(state: ParseState) -> (r: SessionParseState)
    ensures
        r == contract_parse_state_spec(state),
{
    match state {
        ParseState::Healthy => SessionParseState::Healthy,
        ParseState::Partial => SessionParseState::Partial,
        ParseState::Unsupported => SessionParseState::Unsupported,
        ParseState::Corrupt => SessionParseState::Corrupt,
    }
}

pub open spec fn contract_title_source_spec(s: TitleSource) -> SessionTitleSource {
    match s {
        TitleSource::PiName => SessionTitleSource::PiName,
        TitleSource::FirstUserMessage => SessionTitleSource::FirstUserMessage,
        TitleSource::DateId => SessionTitleSource::DateId,
        TitleSource::UiAlias => SessionTitleSource::UiAlias,
    }
}

pub fn contract_title_source(source: TitleSource) -> (r: SessionTitleSource)
    ensures
        r == contract_title_source_spec(source),
{
    match source {
        TitleSource::PiName => SessionTitleSource::PiName,
        TitleSource::FirstUserMessage => SessionTitleSource::FirstUserMessage,
        TitleSource::DateId => SessionTitleSource::DateId,
        TitleSource::UiAlias => SessionTitleSource::UiAlias,
    }
}

/// A model reference of the local runtime.
pub fn model_ref(id: String) -> (r: ModelRef)
    ensures
        r.provider@ == "pi"@,
        r.id@ == id@,
{
    ModelRef { provider: String::from_str("pi"), id }
}

fn clone_opt(o: &Option<String>) -> (r: Option<String>)
    ensures
        opt_view(r) == opt_view(*o),
{
    match o {
        Some(s) => Some(s.clone()),
        None => None,
    }
}

pub open spec fn opt_signed_decimal(o: Option<i64>) -> Option<Seq<char>> {
    match o {
        Some(t) => Some(signed_decimal(t as int)),
        None => None,
    }
}

impl ProjectSummary {
    /// The contract projection; it carries no display path.
    pub fn contract_summary(&self) -> (r: ContractProjectSummary)
        ensures
            r.id.0@ == self.id@,
            r.name@ == self.name@,
            r.trust_state == contract_trust(self.trust_state),
            r.missing == self.missing,
            opt_view(r.last_opened_at) == opt_signed_decimal(self.last_opened_at),
    {
        ContractProjectSummary {
            id: ProjectId::new(self.id.clone()),
            name: self.name.clone(),
            trust_state: match self.trust_state {
                TrustState::Unknown => ProjectTrustState::Unknown,
                TrustState::Trusted => ProjectTrustState::Trusted,
                TrustState::Restricted => ProjectTrustState::Restricted,
            },
            missing: self.missing,
            last_opened_at: match self.last_opened_at {
                Some(time) => Some(i64_to_decimal(time)),
                None => None,
            },
        }
    }
}

impl SessionSummary {
    /// The contract projection of a session list entry.
    pub fn contract_summary(&self) -> (r: ContractSessionSummary)
        ensures
            r.id.0@ == self.id@,
            match (r.project_id, self.project_id) {
                (Some(a), Some(b)) => a.0@ == b@,
                (None, None) => true,
                _ => false,
            },
            r.title@ == self.title@,
            r.title_source == contract_title_source_spec(self.title_source),
            opt_view(r.created_at) == opt_view(self.created_at),
            opt_view(r.updated_at) == opt_view(self.updated_at),
            opt_view(r.preview) == opt_view(self.preview),
            r.entry_count == self.entry_count,
            match (r.branch_count, self.branch_count) {
                (Some(a), Some(b)) => a == b,
                (None, None) => true,
                _ => false,
            },
            r.parse_state == contract_parse_state_spec(self.parse_state),
            r.runtime_state is None,
            match (r.model, self.model_ref) {
                (Some(m), Some(id)) => m.provider@ == "pi"@ && m.id@ == id@,
                (None, None) => true,
                _ => false,
            },
    {
        ContractSessionSummary {
            id: SessionId::new(self.id.clone()),
            project_id: match &self.project_id {
                Some(p) => Some(ProjectId::new(p.clone())),
                None => None,
            },
            title: self.title.clone(),
            title_source: contract_title_source(self.title_source),
            created_at: clone_opt(&self.created_at),
            updated_at: clone_opt(&self.updated_at),
            preview: clone_opt(&self.preview),
            entry_count: self.entry_count as u64,
            branch_count: match self.branch_count {
                Some(count) => Some(count as u64),
                None => None,
            },
            parse_state: contract_parse_state(self.parse_state),
            runtime_state: None,
            model: match &self.model_ref {
                Some(m) => Some(model_ref(m.clone())),
                None => None,
            },
        }
    }
}

/// A session's title and where it came from: its normalized runtime name,
/// else its first user preview, else `Session ` and the first eight
/// characters of its id.
pub open spec fn title_spec(name: Option<Seq<char>>, first_user: Option<Seq<char>>, id: Seq<char>) -> (Seq<char>, TitleSource) {
    let n = match name {
        Some(v) => safe_text_spec(v, PREVIEW_LIMIT as nat),
        None => Seq::empty(),
    };
    let f = match first_user {
        Some(v) => safe_text_spec(v, PREVIEW_LIMIT as nat),
        None => Seq::empty(),
    };
    if n.len() > 0 {
        (n, TitleSource::PiName)
    } else if f.len() > 0 {
        (f, TitleSource::FirstUserMessage)
    } else {
        ("Session "@ + take_chars(id, 8), TitleSource::DateId)
    }
}

/// Text as a title shows it: normalized and bounded, empty when absent.
pub open spec fn shown_text(v: Option<Seq<char>>) -> Seq<char> {
    match v {
        Some(t) => safe_text_spec(t, PREVIEW_LIMIT as nat),
        None => Seq::empty(),
    }
}

/// Which title a session gets: its own normalized name whenever that is not
/// empty, whatever its first message says; otherwise its normalized first
/// user message when that is not empty; otherwise `Session ` and the start
/// of its id. A title is never empty.
pub proof fn lemma_title_priority(name: Option<Seq<char>>, first_user: Option<Seq<char>>, id: Seq<char>)
    ensures
        shown_text(name).len() > 0 ==> title_spec(name, first_user, id) == (shown_text(name), TitleSource::PiName),
        shown_text(name).len() == 0 && shown_text(first_user).len() > 0 ==> title_spec(name, first_user, id) == (
            shown_text(first_user),
            TitleSource::FirstUserMessage,
        ),
        shown_text(name).len() == 0 && shown_text(first_user).len() == 0 ==> title_spec(name, first_user, id) == (
            "Session "@ + take_chars(id, 8),
            TitleSource::DateId,
        ),
        title_spec(name, first_user, id).0.len() > 0,
{
    reveal_strlit("Session ");
}

pub fn title_from_report(report: &ScanReport, id: &str) -> (r: (String, TitleSource))
    ensures
        (r.0@, r.1) == title_spec(opt_view(report.session_name), opt_view(report.first_user_preview), id@),
{
    match &report.session_name {
        Some(name) => {
            let n = safe_text(name.as_str(), PREVIEW_LIMIT);
            if !n.as_str().is_empty() {
                return (n, TitleSource::PiName);
            }
        },
        None => {},
    }
    match &report.first_user_preview {
        Some(preview) => {
            let f = safe_text(preview.as_str(), PREVIEW_LIMIT);
            if !f.as_str().is_empty() {
                return (f, TitleSource::FirstUserMessage);
            }
        },
        None => {},
    }
    let chars = str_chars(id);
    let end = if chars.len() < 8 {
        chars.len()
    } else {
        8
    };
    let prefix = string_from_range(&chars, 0, end);
    let mut title = String::new();
    push_str(&mut title, "Session ");
    push_str(&mut title, prefix.as_str());
    assert(chars@.subrange(0, end as int) =~= take_chars(id@, 8));
    assert(Seq::<char>::empty() + "Session "@ =~= "Session "@);
    (title, TitleSource::DateId)
}

} // verus!
