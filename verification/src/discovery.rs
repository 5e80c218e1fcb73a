//! Session discovery bookkeeping: limits, aggregate outcomes, candidate file
//! names, and the sidebar-only catalog built from a candidate's frames.
use vstd::prelude::*;
use crate::json::{JsonValue, parse_json_text, serde_json_from_str};
use crate::report::{
    Diagnostic, DiagnosticView, UnknownEntrySummary, UnknownEntryView, ParseState, ScanReport,
    ReportView, diagnostics_view, unknown_view,
};
use crate::scan::{
    string_field, string_field_spec, keys_view, known_types, is_known_type, header_cwd_field,
    header_cwd_from, cwd_keys, entry_from, entry_spec, utf8_text, sha256, sha256_hex_of,
    opt_seq_or, TYPE_LIMIT,
};
use crate::scanner::{
    diag_view, valid_up_to, session_id_keys, is_header_type, is_full_header_type, record_type,
    make_diagnostic, parse_state_spec,
};
use crate::text::{safe_text, safe_text_spec, str_eq, opt_view, decimal, push_decimal, push_str, str_chars};

verus! {

/// Frames longer than this are skipped by catalog discovery.
pub const CATALOG_FRAME_MAX_BYTES: usize = 1048576;

/// Diagnostics kept by a catalog scan.
pub const CATALOG_DIAGNOSTIC_LIMIT: usize = 64;

/// Unknown-entry summaries kept by a catalog scan.
pub const CATALOG_UNKNOWN_ENTRY_LIMIT: usize = 64;

/// Resource limits for explicit session-root discovery. `max_depth = 0`
/// scans files directly in a root but does not descend.
#[derive(Clone, Copy, Debug, PartialEq, Eq, Structural)]
pub struct SessionDiscoveryLimits {
    pub max_files: usize,
    pub max_directories: usize,
    pub max_entries: usize,
    pub max_depth: usize,
    pub max_file_bytes: usize,
}

impl Default for SessionDiscoveryLimits {
    fn default() -> (r: Self)
        ensures
            r.max_files == 1000,
            r.max_directories == 256,
            r.max_entries == 10000,
            r.max_depth == 8,
            r.max_file_bytes == 134217728,
    {
        SessionDiscoveryLimits {
            max_files: 1000,
            max_directories: 256,
            max_entries: 10000,
            max_depth: 8,
            max_file_bytes: 134217728,
        }
    }
}

#[derive(Clone, Copy, Debug, PartialEq, Eq, Structural)]
pub enum DiscoveryError {
    /// The session discovery limits are invalid.
    InvalidLimits,
    /// The project directory is unavailable for session discovery.
    ProjectUnavailable,
}

impl SessionDiscoveryLimits {
    /// Every bound must admit some work, and the file bound must leave room
    /// for a byte past it.
    pub open spec fn valid(self) -> bool {
        self.max_files != 0 && self.max_directories != 0 && self.max_entries != 0
            && self.max_file_bytes != 0 && self.max_file_bytes != usize::MAX
    }

    pub fn validate(self) -> (r: Result<(), DiscoveryError>)
        ensures
            r is Ok <==> self.valid(),
            r is Err ==> r == Err::<(), DiscoveryError>(DiscoveryError::InvalidLimits),
    {
        if self.max_files == 0 || self.max_directories == 0 || self.max_entries == 0
            || self.max_file_bytes == 0 || self.max_file_bytes == usize::MAX {
            Err(DiscoveryError::InvalidLimits)
        } else {
            Ok(())
        }
    }
}

/// Aggregate-only discovery outcomes; no paths or content.
#[derive(Clone, Copy, Debug, PartialEq, Eq, Structural)]
pub struct SessionDiscoveryStats {
    pub visited_directories: usize,
    pub examined_entries: usize,
    pub scanned_files: usize,
    pub matched_files: usize,
    pub skipped_symlinks: usize,
    pub skipped_oversize_files: usize,
    pub skipped_depth_directories: usize,
    pub skipped_inaccessible_entries: usize,
    /// Readable candidates with no usable project working directory.
    pub unattributable_candidates: usize,
    pub skipped_duplicate_candidates: usize,
    /// Candidates that required a full projection pass.
    pub full_content_scans: usize,
    /// Candidates whose full projection was safely skipped.
    pub unchanged_sources: usize,
    pub directory_limit_reached: bool,
    pub entry_limit_reached: bool,
    pub file_limit_reached: bool,
}

impl Default for SessionDiscoveryStats {
    fn default() -> (r: Self)
        ensures
            r == (SessionDiscoveryStats {
                visited_directories: 0,
                examined_entries: 0,
                scanned_files: 0,
                matched_files: 0,
                skipped_symlinks: 0,
                skipped_oversize_files: 0,
                skipped_depth_directories: 0,
                skipped_inaccessible_entries: 0,
                unattributable_candidates: 0,
                skipped_duplicate_candidates: 0,
                full_content_scans: 0,
                unchanged_sources: 0,
                directory_limit_reached: false,
                entry_limit_reached: false,
                file_limit_reached: false,
            }),
    {
        SessionDiscoveryStats {
            visited_directories: 0,
            examined_entries: 0,
            scanned_files: 0,
            matched_files: 0,
            skipped_symlinks: 0,
            skipped_oversize_files: 0,
            skipped_depth_directories: 0,
            skipped_inaccessible_entries: 0,
            unattributable_candidates: 0,
            skipped_duplicate_candidates: 0,
            full_content_scans: 0,
            unchanged_sources: 0,
            directory_limit_reached: false,
            entry_limit_reached: false,
            file_limit_reached: false,
        }
    }
}

impl SessionDiscoveryStats {
    /// No bound was reached and nothing that could hide a session was skipped.
    pub open spec fn complete(self) -> bool {
        !self.directory_limit_reached && !self.entry_limit_reached && !self.file_limit_reached
            && self.skipped_symlinks == 0 && self.skipped_oversize_files == 0
            && self.skipped_depth_directories == 0 && self.skipped_inaccessible_entries == 0
            && self.unattributable_candidates == 0
    }

    /// Whether discovery observed every eligible candidate. Duplicates are
    /// harmless; every bound and access skip fails closed.
    pub fn is_complete(&self) -> (r: bool)
        ensures
            r == self.complete(),
    {
        !self.directory_limit_reached && !self.entry_limit_reached && !self.file_limit_reached
            && self.skipped_symlinks == 0 && self.skipped_oversize_files == 0
            && self.skipped_depth_directories == 0 && self.skipped_inaccessible_entries == 0
            && self.unattributable_candidates == 0
    }
}

/// ASCII lower case of a whole name.
pub open spec fn lower_name(s: Seq<char>) -> Seq<char> {
    s.map_values(|c: char| crate::display::ascii_lower(c))
}

/// The extension of a file name: what follows its last `.`, unless that dot
/// starts the name.
pub open spec fn extension_of(name: Seq<char>) -> Option<Seq<char>>
    decreases name.len(),
{
    last_dot(name, name.len() as int)
}

pub open spec fn last_dot(name: Seq<char>, end: int) -> Option<Seq<char>>
    decreases end,
{
    if end <= 1 {
        None
    } else if name[end - 1] == '.' {
        Some(name.skip(end))
    } else {
        last_dot(name, end - 1)
    }
}

/// A discovery candidate: a `.jsonl` file that is not an auth, config or
/// settings file (compared case-insensitively).
pub open spec fn session_file_name(name: Seq<char>) -> bool {
    let lower = lower_name(name);
    !(lower == "auth.jsonl"@ || lower == "config.jsonl"@ || lower == "settings.jsonl"@)
        && extension_of(name) == Some("jsonl"@)
}

pub fn is_session_jsonl(file_name: &str) -> (r: bool)
    ensures
        r == session_file_name(file_name@),
{
    let chars = str_chars(file_name);
    let mut lower: Vec<char> = Vec::new();
    let mut i: usize = 0;
    while i < chars.len()
        invariant
            i <= chars@.len(),
            chars@ == file_name@,
            lower@ == lower_name(chars@.take(i as int)),
        decreases chars.len() - i,
    {
        let c = chars[i];
        lower.push(crate::display::ascii_lower_char(c));
        assert(lower_name(chars@.take(i + 1)) =~= lower_name(chars@.take(i as int)).push(crate::display::ascii_lower(c)));
        i = i + 1;
    }
    assert(chars@.take(chars@.len() as int) =~= chars@);
    let lower_s = crate::text::string_from_chars(&lower);
    let l = lower_s.as_str();
    if str_eq(l, "auth.jsonl") || str_eq(l, "config.jsonl") || str_eq(l, "settings.jsonl") {
        return false;
    }
    let mut end = chars.len();
    while end > 1 && chars[end - 1] != '.'
        invariant
            end <= chars@.len(),
            chars@ == file_name@,
            extension_of(chars@) == last_dot(chars@, end as int),
        decreases end,
    {
        end = end - 1;
    }
    if end <= 1 {
        return false;
    }
    let ext = crate::text::string_from_range(&chars, end, chars.len());
    assert(chars@.subrange(end as int, chars@.len() as int) =~= chars@.skip(end as int));
    str_eq(ext.as_str(), "jsonl")
}

// ---------------------------------------------------------------------------
// Sidebar catalog accumulation

/// What a catalog scan has gathered: only sidebar fields and bounded
/// diagnostics, never entries, a tree or a timeline.
pub struct CatalogState {
    pub diagnostics: Seq<DiagnosticView>,
    pub unknown: Seq<UnknownEntryView>,
    pub saw_unknown: bool,
    pub pi_session_id: Option<Seq<char>>,
    pub session_name: Option<Seq<char>>,
    pub project_cwd: Option<Seq<char>>,
    pub created_at: Option<Seq<char>>,
    pub updated_at: Option<Seq<char>>,
    pub first_user_preview: Option<Seq<char>>,
    pub last_message_preview: Option<Seq<char>>,
    pub last_model: Option<Seq<char>>,
    pub entry_count: usize,
    pub image_entry_count: usize,
    pub compaction_entry_count: usize,
}

pub open spec fn empty_catalog_state() -> CatalogState {
    CatalogState {
        diagnostics: Seq::empty(),
        unknown: Seq::empty(),
        saw_unknown: false,
        pi_session_id: None,
        session_name: None,
        project_cwd: None,
        created_at: None,
        updated_at: None,
        first_user_preview: None,
        last_message_preview: None,
        last_model: None,
        entry_count: 0,
        image_entry_count: 0,
        compaction_entry_count: 0,
    }
}

/// A diagnostic is kept while fewer than the limit are held.
pub open spec fn cat_diag(st: CatalogState, d: DiagnosticView) -> CatalogState {
    if st.diagnostics.len() < CATALOG_DIAGNOSTIC_LIMIT {
        CatalogState { diagnostics: st.diagnostics.push(d), ..st }
    } else {
        st
    }
}

pub open spec fn sat_inc(n: usize, by: bool) -> usize {
    if by && n < usize::MAX {
        (n + 1) as usize
    } else {
        n
    }
}

pub open spec fn cat_header(st: CatalogState, line: u64, fields: Seq<(String, JsonValue)>, t: Seq<char>) -> CatalogState {
    let cwd = header_cwd_from(fields, cwd_keys());
    let st1 = CatalogState {
        pi_session_id: opt_seq_or(string_field_spec(fields, session_id_keys(t)), st.pi_session_id),
        session_name: opt_seq_or(
            string_field_spec(fields, seq!["name"@, "sessionName"@, "title"@]),
            st.session_name,
        ),
        project_cwd: match cwd {
            Ok(Some(c)) => Some(c),
            _ => st.project_cwd,
        },
        ..st
    };
    let st2 = if cwd is Err {
        cat_diag(st1, diag_view("header-cwd-too-long"@, line, "ignored"@))
    } else {
        st1
    };
    CatalogState {
        created_at: opt_seq_or(
            string_field_spec(fields, seq!["createdAt"@, "created_at"@, "timestamp"@]),
            st2.created_at,
        ),
        last_model: opt_seq_or(
            string_field_spec(fields, seq!["model"@, "modelId"@, "model_id"@]),
            st2.last_model,
        ),
        ..st2
    }
}

pub open spec fn cat_entry(st: CatalogState, line: u64, fields: Seq<(String, JsonValue)>, known: bool, t: Seq<char>) -> CatalogState {
    let e = entry_spec(fields, line, 0, known, t);
    let user = e.role == Some("user"@);
    let chat = user || e.role == Some("assistant"@);
    CatalogState {
        entry_count: sat_inc(st.entry_count, true),
        image_entry_count: sat_inc(st.image_entry_count, e.has_image),
        compaction_entry_count: sat_inc(st.compaction_entry_count, e.entry_type == "compaction"@),
        last_model: opt_seq_or(e.model_ref, st.last_model),
        first_user_preview: if st.first_user_preview is None && user {
            e.preview
        } else {
            st.first_user_preview
        },
        last_message_preview: if chat && e.preview is Some {
            e.preview
        } else {
            st.last_message_preview
        },
        updated_at: if e.created_at is Some {
            e.created_at
        } else {
            st.updated_at
        },
        ..st
    }
}

pub open spec fn cat_record(st: CatalogState, line: u64, frame: Seq<u8>, fields: Seq<(String, JsonValue)>) -> CatalogState {
    let t = record_type(fields);
    let known = known_types().contains(t);
    let st1 = if known {
        st
    } else if st.unknown.len() < CATALOG_UNKNOWN_ENTRY_LIMIT {
        CatalogState {
            saw_unknown: true,
            unknown: st.unknown.push(
                UnknownEntryView {
                    line,
                    entry_type: safe_text_spec(t, TYPE_LIMIT as nat),
                    byte_length: frame.len() as usize,
                    sha256: sha256_hex_of(frame),
                },
            ),
            ..st
        }
    } else {
        CatalogState { saw_unknown: true, ..st }
    };
    let st2 = if is_header_type(t) {
        cat_header(st1, line, fields, t)
    } else {
        st1
    };
    if is_full_header_type(t) {
        st2
    } else {
        cat_entry(st2, line, fields, known, t)
    }
}

/// One complete frame of a catalog scan.
pub open spec fn cat_frame(st: CatalogState, line: u64, frame: Seq<u8>) -> CatalogState {
    if frame.len() == 0 {
        cat_diag(st, diag_view("empty-frame"@, line, "ignored"@))
    } else if !vstd::utf8::valid_utf8(frame) {
        cat_diag(st, diag_view("invalid-utf8"@, line, "byte "@ + decimal(valid_up_to(frame))))
    } else {
        match serde_json_from_str(vstd::utf8::decode_utf8(frame)) {
            Err(column) => cat_diag(
                st,
                diag_view("malformed-json"@, line, "column "@ + decimal(column as nat)),
            ),
            Ok(JsonValue::Object(f)) => cat_record(st, line, frame, f@),
            Ok(_) => cat_diag(st, diag_view("non-object-entry"@, line, "ignored"@)),
        }
    }
}

/// The sidebar report of a catalog scan. It carries no entries, tree or
/// timeline, and its branch count is unknown (zero).
pub open spec fn catalog_report(
    st: CatalogState,
    source_name: Seq<char>,
    file_revision: Seq<char>,
    complete_bytes: usize,
    partial_tail_bytes: usize,
) -> ReportView {
    ReportView {
        source_name: safe_text_spec(source_name, TYPE_LIMIT as nat),
        file_revision,
        source_modified: None,
        complete_bytes,
        partial_tail_bytes,
        parse_state: parse_state_spec(
            st.diagnostics.len(),
            partial_tail_bytes > 0,
            if st.saw_unknown { 1 } else { 0 },
        ),
        pi_session_id: st.pi_session_id,
        session_name: st.session_name,
        project_cwd: st.project_cwd,
        created_at: st.created_at,
        updated_at: opt_seq_or(st.updated_at, st.created_at),
        first_user_preview: st.first_user_preview,
        last_message_preview: st.last_message_preview,
        model_ref: st.last_model,
        entry_count: st.entry_count,
        image_entry_count: st.image_entry_count,
        compaction_entry_count: st.compaction_entry_count,
        branch_count: 0,
        current_leaf_id: None,
        roots: Seq::empty(),
        orphan_ids: Seq::empty(),
        cycle_ids: Seq::empty(),
        unknown_entries: st.unknown,
        diagnostics: st.diagnostics,
        entries: Seq::empty(),
        tree: Seq::empty(),
        timeline_blocks: Seq::empty(),
    }
}


fn labelled_number(label: &str, n: u64) -> (r: String)
    ensures
        r@ == label@ + decimal(n as nat),
{
    let mut s = String::new();
    push_str(&mut s, label);
    push_decimal(&mut s, n);
    assert(Seq::<char>::empty() + label@ =~= label@);
    s
}

fn or_keep(new: Option<String>, old: Option<String>) -> (r: Option<String>)
    ensures
        opt_view(r) == opt_seq_or(opt_view(new), opt_view(old)),
{
    match new {
        Some(v) => Some(v),
        None => old,
    }
}

fn clone_opt(o: &Option<String>) -> (r: Option<String>)
    ensures
        opt_view(r) == opt_view(*o),
{
    match o {
        Some(s) => Some(s.clone()),
        None => None,
    }
}

/// Sidebar-only accumulation of a discovery candidate's frames.
pub struct CatalogAccumulator {
    pub diagnostics: Vec<Diagnostic>,
    pub unknown_entries: Vec<UnknownEntrySummary>,
    pub saw_unknown: bool,
    pub pi_session_id: Option<String>,
    pub session_name: Option<String>,
    pub project_cwd: Option<String>,
    pub created_at: Option<String>,
    pub updated_at: Option<String>,
    pub first_user_preview: Option<String>,
    pub last_message_preview: Option<String>,
    pub last_model: Option<String>,
    pub entry_count: usize,
    pub image_entry_count: usize,
    pub compaction_entry_count: usize,
}

impl CatalogAccumulator {
    pub open spec fn state(&self) -> CatalogState {
        CatalogState {
            diagnostics: diagnostics_view(self.diagnostics@),
            unknown: unknown_view(self.unknown_entries@),
            saw_unknown: self.saw_unknown,
            pi_session_id: opt_view(self.pi_session_id),
            session_name: opt_view(self.session_name),
            project_cwd: opt_view(self.project_cwd),
            created_at: opt_view(self.created_at),
            updated_at: opt_view(self.updated_at),
            first_user_preview: opt_view(self.first_user_preview),
            last_message_preview: opt_view(self.last_message_preview),
            last_model: opt_view(self.last_model),
            entry_count: self.entry_count,
            image_entry_count: self.image_entry_count,
            compaction_entry_count: self.compaction_entry_count,
        }
    }

    pub fn new() -> (r: Self)
        ensures
            r.state() == empty_catalog_state(),
    {
        let r = CatalogAccumulator {
            diagnostics: Vec::new(),
            unknown_entries: Vec::new(),
            saw_unknown: false,
            pi_session_id: None,
            session_name: None,
            project_cwd: None,
            created_at: None,
            updated_at: None,
            first_user_preview: None,
            last_message_preview: None,
            last_model: None,
            entry_count: 0,
            image_entry_count: 0,
            compaction_entry_count: 0,
        };
        assert(diagnostics_view(r.diagnostics@) =~= Seq::<DiagnosticView>::empty());
        assert(unknown_view(r.unknown_entries@) =~= Seq::<UnknownEntryView>::empty());
        r
    }

    /// Records a diagnostic while fewer than the limit are held.
    pub fn diagnostic(&mut self, code: &str, line: u64, detail: String)
        ensures
            final(self).state() == cat_diag(old(self).state(), diag_view(code@, line, detail@)),
    {
        if self.diagnostics.len() < CATALOG_DIAGNOSTIC_LIMIT {
            let d = make_diagnostic(code, line, detail);
            let ghost before = self.diagnostics@;
            self.diagnostics.push(d);
            assert(diagnostics_view(self.diagnostics@) =~= diagnostics_view(before).push(d@));
        }
    }

    /// Records a frame that was skipped for exceeding the frame bound.
    pub fn oversized_frame(&mut self, line: u64)
        ensures
            final(self).state() == cat_diag(old(self).state(), diag_view("frame-too-large"@, line, "ignored"@)),
    {
        self.diagnostic("frame-too-large", line, String::from_str("ignored"));
    }

    fn header(&mut self, line: u64, fields: &Vec<(String, JsonValue)>, t: &str)
        requires
            is_header_type(t@),
        ensures
            final(self).state() == cat_header(old(self).state(), line, fields@, t@),
    {
        let full = str_eq(t, "session") || str_eq(t, "session_meta");
        let full_keys = ["sessionId", "session_id", "id"];
        let info_keys = ["sessionId", "session_id"];
        assert(keys_view(full_keys@) =~= seq!["sessionId"@, "session_id"@, "id"@]);
        assert(keys_view(info_keys@) =~= seq!["sessionId"@, "session_id"@]);
        let id = if full {
            string_field(fields, &full_keys)
        } else {
            string_field(fields, &info_keys)
        };
        let name_keys = ["name", "sessionName", "title"];
        let created_keys = ["createdAt", "created_at", "timestamp"];
        let model_keys = ["model", "modelId", "model_id"];
        assert(keys_view(name_keys@) =~= seq!["name"@, "sessionName"@, "title"@]);
        assert(keys_view(created_keys@) =~= seq!["createdAt"@, "created_at"@, "timestamp"@]);
        assert(keys_view(model_keys@) =~= seq!["model"@, "modelId"@, "model_id"@]);
        let old_id = self.pi_session_id.take();
        self.pi_session_id = or_keep(id, old_id);
        let old_name = self.session_name.take();
        self.session_name = or_keep(string_field(fields, &name_keys), old_name);
        match header_cwd_field(fields) {
            Ok(Some(cwd)) => {
                self.project_cwd = Some(cwd);
            },
            Ok(None) => {},
            Err(()) => {
                self.diagnostic("header-cwd-too-long", line, String::from_str("ignored"));
            },
        }
        let old_created = self.created_at.take();
        self.created_at = or_keep(string_field(fields, &created_keys), old_created);
        let old_model = self.last_model.take();
        self.last_model = or_keep(string_field(fields, &model_keys), old_model);
    }

    fn entry(&mut self, line: u64, fields: &Vec<(String, JsonValue)>, known: bool, t: String)
        ensures
            final(self).state() == cat_entry(old(self).state(), line, fields@, known, t@),
    {
        let entry = entry_from(fields, line, 0, known, t);
        if self.entry_count < usize::MAX {
            self.entry_count = self.entry_count + 1;
        }
        if entry.has_image && self.image_entry_count < usize::MAX {
            self.image_entry_count = self.image_entry_count + 1;
        }
        if str_eq(entry.entry_type.as_str(), "compaction") && self.compaction_entry_count < usize::MAX {
            self.compaction_entry_count = self.compaction_entry_count + 1;
        }
        let model = clone_opt(&entry.model_ref);
        let old_model = self.last_model.take();
        self.last_model = or_keep(model, old_model);
        let user = match &entry.role {
            Some(r) => str_eq(r.as_str(), "user"),
            None => false,
        };
        let assistant = match &entry.role {
            Some(r) => str_eq(r.as_str(), "assistant"),
            None => false,
        };
        if self.first_user_preview.is_none() && user {
            self.first_user_preview = clone_opt(&entry.preview);
        }
        if user || assistant {
            match &entry.preview {
                Some(p) => {
                    self.last_message_preview = Some(p.clone());
                },
                None => {},
            }
        }
        match &entry.created_at {
            Some(c) => {
                self.updated_at = Some(c.clone());
            },
            None => {},
        }
    }

    fn record(&mut self, line: u64, frame: &[u8], fields: &Vec<(String, JsonValue)>)
        ensures
            final(self).state() == cat_record(old(self).state(), line, frame@, fields@),
    {
        let type_keys = ["type", "entryType"];
        assert(keys_view(type_keys@) =~= seq!["type"@, "entryType"@]);
        let t = match string_field(fields, &type_keys) {
            Some(t) => t,
            None => String::from_str("missing-type"),
        };
        let known = is_known_type(t.as_str());
        if !known {
            self.saw_unknown = true;
            if self.unknown_entries.len() < CATALOG_UNKNOWN_ENTRY_LIMIT {
                let summary = UnknownEntrySummary {
                    line,
                    entry_type: safe_text(t.as_str(), TYPE_LIMIT),
                    byte_length: frame.len(),
                    sha256: sha256(frame),
                };
                let ghost before = self.unknown_entries@;
                self.unknown_entries.push(summary);
                assert(unknown_view(self.unknown_entries@) =~= unknown_view(before).push(summary@));
            }
        }
        let header = str_eq(t.as_str(), "session") || str_eq(t.as_str(), "session_meta") || str_eq(
            t.as_str(),
            "session_info",
        );
        if header {
            self.header(line, fields, t.as_str());
        }
        if str_eq(t.as_str(), "session") || str_eq(t.as_str(), "session_meta") {
            return;
        }
        self.entry(line, fields, known, t);
    }

    /// Folds one complete frame into the catalog.
    pub fn frame(&mut self, line: u64, frame: &[u8])
        ensures
            final(self).state() == cat_frame(old(self).state(), line, frame@),
    {
        if frame.len() == 0 {
            self.diagnostic("empty-frame", line, String::from_str("ignored"));
            return;
        }
        let text = match utf8_text(frame) {
            Ok(t) => t,
            Err(n) => {
                proof {
                    crate::scanner::lemma_valid_prefix_from_pub(frame@, n as nat);
                }
                self.diagnostic("invalid-utf8", line, labelled_number("byte ", n as u64));
                return;
            },
        };
        match parse_json_text(text.as_str()) {
            Err(column) => {
                self.diagnostic("malformed-json", line, labelled_number("column ", column as u64));
            },
            Ok(value) => {
                match &value {
                    JsonValue::Object(fields) => {
                        self.record(line, frame, fields);
                    },
                    _ => {
                        self.diagnostic("non-object-entry", line, String::from_str("ignored"));
                    },
                }
            },
        }
    }

    /// The sidebar report; topology is left unknown.
    pub fn into_report(
        self,
        source_name: &str,
        file_revision: String,
        complete_bytes: usize,
        partial_tail_bytes: usize,
    ) -> (r: ScanReport)
        ensures
            r@ == catalog_report(self.state(), source_name@, file_revision@, complete_bytes, partial_tail_bytes),
    {
        let parse_state = if self.diagnostics.len() == 0 {
            if partial_tail_bytes > 0 {
                ParseState::Partial
            } else if self.saw_unknown {
                ParseState::Unsupported
            } else {
                ParseState::Healthy
            }
        } else {
            ParseState::Corrupt
        };
        let created = clone_opt(&self.created_at);
        let updated = or_keep(self.updated_at, self.created_at);
        let r = ScanReport {
            source_name: safe_text(source_name, TYPE_LIMIT),
            file_revision,
            source_modified: None,
            complete_bytes,
            partial_tail_bytes,
            parse_state,
            pi_session_id: self.pi_session_id,
            session_name: self.session_name,
            project_cwd: self.project_cwd,
            created_at: created,
            updated_at: updated,
            first_user_preview: self.first_user_preview,
            last_message_preview: self.last_message_preview,
            model_ref: self.last_model,
            entry_count: self.entry_count,
            image_entry_count: self.image_entry_count,
            compaction_entry_count: self.compaction_entry_count,
            branch_count: 0,
            current_leaf_id: None,
            roots: Vec::new(),
            orphan_ids: Vec::new(),
            cycle_ids: Vec::new(),
            unknown_entries: self.unknown_entries,
            diagnostics: self.diagnostics,
            entries: Vec::new(),
            tree: Vec::new(),
            timeline_blocks: Vec::new(),
        };
        assert(crate::report::strings_view(r.roots@) =~= Seq::<Seq<char>>::empty());
        assert(crate::report::strings_view(r.orphan_ids@) =~= Seq::<Seq<char>>::empty());
        assert(crate::report::strings_view(r.cycle_ids@) =~= Seq::<Seq<char>>::empty());
        assert(crate::report::entries_view(r.entries@) =~= Seq::<crate::report::EntryView>::empty());
        assert(crate::report::tree_view(r.tree@) =~= Seq::<crate::report::TreeNodeView>::empty());
        assert(crate::report::blocks_view(r.timeline_blocks@) =~= Seq::<crate::report::BlockView>::empty());
        r
    }
}

} // verus!
