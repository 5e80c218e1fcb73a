//! The scanner: one pass over a session file's frames into a `ScanReport`.
//!
//! Each complete frame either yields a diagnostic (empty, invalid UTF-8,
//! malformed JSON, not an object) or a record. Unknown record types are
//! summarized by line, type, length and digest only. Header records set the
//! session's identity fields; every other record becomes an indexed entry.
use vstd::prelude::*;
use crate::json::{JsonValue, parse_json_text, serde_json_from_str};
use crate::report::{
    Diagnostic, DiagnosticView, UnknownEntrySummary, UnknownEntryView, IndexedEntry, EntryView,
    ParseState, ScanReport, ReportView, diagnostics_view, unknown_view, entries_view,
};
use crate::scan::{
    string_field, string_field_spec, keys_view, known_types, is_known_type, header_cwd_field,
    header_cwd_from, cwd_keys, entry_from, entry_spec, utf8_text, sha256, sha256_hex_of, lf_frames,
    lf_frame_seq, lf_complete_len, opt_seq_or, TYPE_LIMIT,
};
use crate::text::{safe_text, safe_text_spec, str_eq, opt_view, decimal, push_decimal, push_str};

verus! {

/// The largest `n <= upto` whose prefix of `b` is valid UTF-8.
pub open spec fn valid_prefix_from(b: Seq<u8>, upto: nat) -> nat
    decreases upto,
{
    if vstd::utf8::valid_utf8(b.take(upto as int)) || upto == 0 {
        upto
    } else {
        valid_prefix_from(b, (upto - 1) as nat)
    }
}

/// Where UTF-8 validation of `b` stops (`Utf8Error::valid_up_to`).
pub open spec fn valid_up_to(b: Seq<u8>) -> nat {
    valid_prefix_from(b, b.len())
}

proof fn lemma_valid_prefix_from(b: Seq<u8>, upto: nat, n: nat)
    requires
        n <= upto <= b.len(),
        vstd::utf8::valid_utf8(b.take(n as int)),
        forall|m: int| n < m <= b.len() ==> !vstd::utf8::valid_utf8(#[trigger] b.take(m)),
    ensures
        valid_prefix_from(b, upto) == n,
    decreases upto,
{
    if upto > n {
        assert(!vstd::utf8::valid_utf8(b.take(upto as int)));
        lemma_valid_prefix_from(b, (upto - 1) as nat, n);
    }
}

pub proof fn lemma_valid_prefix_from_pub(b: Seq<u8>, n: nat)
    requires
        n <= b.len(),
        vstd::utf8::valid_utf8(b.take(n as int)),
        forall|m: int| n < m <= b.len() ==> !vstd::utf8::valid_utf8(#[trigger] b.take(m)),
    ensures
        valid_up_to(b) == n,
{
    lemma_valid_prefix_from(b, b.len(), n);
}

pub open spec fn diag_view(code: Seq<char>, line: u64, detail: Seq<char>) -> DiagnosticView {
    DiagnosticView { code, line, detail }
}

/// What the scan has gathered after some frames.
pub struct ScanState {
    pub diagnostics: Seq<DiagnosticView>,
    pub entries: Seq<EntryView>,
    pub unknown: Seq<UnknownEntryView>,
    pub pi_session_id: Option<Seq<char>>,
    pub session_name: Option<Seq<char>>,
    pub project_cwd: Option<Seq<char>>,
    pub created_at: Option<Seq<char>>,
    pub last_model: Option<Seq<char>>,
    /// Each entry id with the line where it first appeared.
    pub seen: Seq<(Seq<char>, u64)>,
}

pub open spec fn with_diag(st: ScanState, d: DiagnosticView) -> ScanState {
    ScanState { diagnostics: st.diagnostics.push(d), ..st }
}

pub open spec fn seen_line(seen: Seq<(Seq<char>, u64)>, id: Seq<char>) -> Option<u64>
    decreases seen.len(),
{
    if seen.len() == 0 {
        None
    } else if seen.last().0 == id {
        Some(seen.last().1)
    } else {
        seen_line(seen.drop_last(), id)
    }
}

pub open spec fn is_header_type(t: Seq<char>) -> bool {
    t == "session"@ || t == "session_meta"@ || t == "session_info"@
}

pub open spec fn is_full_header_type(t: Seq<char>) -> bool {
    t == "session"@ || t == "session_meta"@
}

pub open spec fn session_id_keys(t: Seq<char>) -> Seq<Seq<char>> {
    if is_full_header_type(t) {
        seq!["sessionId"@, "session_id"@, "id"@]
    } else {
        seq!["sessionId"@, "session_id"@]
    }
}

/// A header record updates the session identity; later values win, missing
/// ones keep the earlier value. An oversized working directory is reported.
pub open spec fn header_step(st: ScanState, line: u64, fields: Seq<(String, JsonValue)>, t: Seq<char>) -> ScanState {
    let cwd = header_cwd_from(fields, cwd_keys());
    let st1 = ScanState {
        pi_session_id: opt_seq_or(string_field_spec(fields, session_id_keys(t)), st.pi_session_id),
        session_name: opt_seq_or(
            string_field_spec(fields, seq!["name"@, "sessionName"@, "title"@]),
            st.session_name,
        ),
        project_cwd: match cwd {
            Ok(Some(c)) => Some(c),
            _ => st.project_cwd,
        },
        ..st
    };
    let st2 = if cwd is Err {
        with_diag(st1, diag_view("header-cwd-too-long"@, line, "ignored"@))
    } else {
        st1
    };
    ScanState {
        created_at: opt_seq_or(
            string_field_spec(fields, seq!["createdAt"@, "created_at"@, "timestamp"@]),
            st2.created_at,
        ),
        last_model: opt_seq_or(
            string_field_spec(fields, seq!["model"@, "modelId"@, "model_id"@]),
            st2.last_model,
        ),
        ..st2
    }
}

/// A non-header record becomes the next entry; a repeated id is reported
/// with the line of its first appearance.
pub open spec fn entry_step(st: ScanState, line: u64, fields: Seq<(String, JsonValue)>, known: bool, t: Seq<char>) -> ScanState {
    let e = entry_spec(fields, line, st.entries.len() as usize, known, t);
    let st1 = match e.entry_id {
        Some(id) => match seen_line(st.seen, id) {
            Some(first) => with_diag(
                st,
                diag_view("duplicate-entry-id"@, line, "first seen at line "@ + decimal(first as nat)),
            ),
            None => ScanState { seen: st.seen.push((id, line)), ..st },
        },
        None => st,
    };
    ScanState {
        last_model: opt_seq_or(e.model_ref, st1.last_model),
        entries: st1.entries.push(e),
        ..st1
    }
}

pub open spec fn record_type(fields: Seq<(String, JsonValue)>) -> Seq<char> {
    match string_field_spec(fields, seq!["type"@, "entryType"@]) {
        Some(t) => t,
        None => "missing-type"@,
    }
}

pub open spec fn record_step(st: ScanState, line: u64, frame: Seq<u8>, fields: Seq<(String, JsonValue)>) -> ScanState {
    let t = record_type(fields);
    let known = known_types().contains(t);
    let st1 = if known {
        st
    } else {
        ScanState {
            unknown: st.unknown.push(
                UnknownEntryView {
                    line,
                    entry_type: safe_text_spec(t, TYPE_LIMIT as nat),
                    byte_length: frame.len() as usize,
                    sha256: sha256_hex_of(frame),
                },
            ),
            ..st
        }
    };
    let st2 = if is_header_type(t) {
        header_step(st1, line, fields, t)
    } else {
        st1
    };
    if is_full_header_type(t) {
        st2
    } else {
        entry_step(st2, line, fields, known, t)
    }
}

pub open spec fn frame_step(st: ScanState, line: u64, frame: Seq<u8>) -> ScanState {
    if frame.len() == 0 {
        with_diag(st, diag_view("empty-frame"@, line, "ignored"@))
    } else if !vstd::utf8::valid_utf8(frame) {
        with_diag(st, diag_view("invalid-utf8"@, line, "byte "@ + decimal(valid_up_to(frame))))
    } else {
        match serde_json_from_str(vstd::utf8::decode_utf8(frame)) {
            Err(column) => with_diag(
                st,
                diag_view("malformed-json"@, line, "column "@ + decimal(column as nat)),
            ),
            Ok(JsonValue::Object(f)) => record_step(st, line, frame, f@),
            Ok(_) => with_diag(st, diag_view("non-object-entry"@, line, "ignored"@)),
        }
    }
}

pub open spec fn empty_scan_state() -> ScanState {
    ScanState {
        diagnostics: Seq::empty(),
        entries: Seq::empty(),
        unknown: Seq::empty(),
        pi_session_id: None,
        session_name: None,
        project_cwd: None,
        created_at: None,
        last_model: None,
        seen: Seq::empty(),
    }
}

/// The state after the first `upto` frames (line numbers are 1-based).
pub open spec fn scan_frames(frames: Seq<Seq<u8>>, upto: nat) -> ScanState
    decreases upto,
{
    if upto == 0 || upto > frames.len() {
        empty_scan_state()
    } else {
        frame_step(scan_frames(frames, (upto - 1) as nat), upto as u64, frames[upto - 1])
    }
}


// ---------------------------------------------------------------------------
// Executable scan

pub open spec fn seen_view(v: Seq<(String, u64)>) -> Seq<(Seq<char>, u64)> {
    v.map_values(|p: (String, u64)| (p.0@, p.1))
}

proof fn lemma_seen_lookup(v: Seq<(String, u64)>, k: Seq<char>)
    ensures
        seen_line(seen_view(v), k) == crate::assoc::lookup(v, k),
    decreases v.len(),
{
    if v.len() > 0 {
        assert(seen_view(v).drop_last() =~= seen_view(v.drop_last()));
        lemma_seen_lookup(v.drop_last(), k);
    }
}

pub fn make_diagnostic(code: &str, line: u64, detail: String) -> (r: Diagnostic)
    ensures
        r@ == diag_view(code@, line, detail@),
{
    Diagnostic { code: code.to_owned(), line, detail }
}

fn labelled_number(label: &str, n: u64) -> (r: String)
    ensures
        r@ == label@ + decimal(n as nat),
{
    let mut s = String::new();
    push_str(&mut s, label);
    push_decimal(&mut s, n);
    assert(Seq::<char>::empty() + label@ =~= label@);
    s
}

fn or_keep(new: Option<String>, old: Option<String>) -> (r: Option<String>)
    ensures
        opt_view(r) == opt_seq_or(opt_view(new), opt_view(old)),
{
    match new {
        Some(v) => Some(v),
        None => old,
    }
}

/// The scan state in executable form.
pub struct Scanner {
    pub diagnostics: Vec<Diagnostic>,
    pub entries: Vec<IndexedEntry>,
    pub unknown: Vec<UnknownEntrySummary>,
    pub pi_session_id: Option<String>,
    pub session_name: Option<String>,
    pub project_cwd: Option<String>,
    pub created_at: Option<String>,
    pub last_model: Option<String>,
    pub seen: Vec<(String, u64)>,
}

impl Scanner {
    pub open spec fn state(&self) -> ScanState {
        ScanState {
            diagnostics: diagnostics_view(self.diagnostics@),
            entries: entries_view(self.entries@),
            unknown: unknown_view(self.unknown@),
            pi_session_id: opt_view(self.pi_session_id),
            session_name: opt_view(self.session_name),
            project_cwd: opt_view(self.project_cwd),
            created_at: opt_view(self.created_at),
            last_model: opt_view(self.last_model),
            seen: seen_view(self.seen@),
        }
    }

    pub fn new() -> (r: Self)
        ensures
            r.state() == empty_scan_state(),
    {
        let r = Scanner {
            diagnostics: Vec::new(),
            entries: Vec::new(),
            unknown: Vec::new(),
            pi_session_id: None,
            session_name: None,
            project_cwd: None,
            created_at: None,
            last_model: None,
            seen: Vec::new(),
        };
        assert(diagnostics_view(r.diagnostics@) =~= Seq::<DiagnosticView>::empty());
        assert(entries_view(r.entries@) =~= Seq::<EntryView>::empty());
        assert(unknown_view(r.unknown@) =~= Seq::<UnknownEntryView>::empty());
        assert(seen_view(r.seen@) =~= Seq::<(Seq<char>, u64)>::empty());
        r
    }

    fn push_diag(&mut self, d: Diagnostic)
        ensures
            final(self).state() == with_diag(old(self).state(), d@),
    {
        let ghost before = self.diagnostics@;
        self.diagnostics.push(d);
        assert(diagnostics_view(self.diagnostics@) =~= diagnostics_view(before).push(d@));
    }

    fn header(&mut self, line: u64, fields: &Vec<(String, JsonValue)>, t: &str)
        requires
            is_header_type(t@),
        ensures
            final(self).state() == header_step(old(self).state(), line, fields@, t@),
    {
        let full = str_eq(t, "session") || str_eq(t, "session_meta");
        let full_keys = ["sessionId", "session_id", "id"];
        let info_keys = ["sessionId", "session_id"];
        assert(keys_view(full_keys@) =~= seq!["sessionId"@, "session_id"@, "id"@]);
        assert(keys_view(info_keys@) =~= seq!["sessionId"@, "session_id"@]);
        let id = if full {
            string_field(fields, &full_keys)
        } else {
            string_field(fields, &info_keys)
        };
        let name_keys = ["name", "sessionName", "title"];
        let created_keys = ["createdAt", "created_at", "timestamp"];
        let model_keys = ["model", "modelId", "model_id"];
        assert(keys_view(name_keys@) =~= seq!["name"@, "sessionName"@, "title"@]);
        assert(keys_view(created_keys@) =~= seq!["createdAt"@, "created_at"@, "timestamp"@]);
        assert(keys_view(model_keys@) =~= seq!["model"@, "modelId"@, "model_id"@]);
        let old_id = self.pi_session_id.take();
        self.pi_session_id = or_keep(id, old_id);
        let old_name = self.session_name.take();
        self.session_name = or_keep(string_field(fields, &name_keys), old_name);
        match header_cwd_field(fields) {
            Ok(Some(cwd)) => {
                self.project_cwd = Some(cwd);
            },
            Ok(None) => {},
            Err(()) => {
                self.push_diag(make_diagnostic("header-cwd-too-long", line, String::from_str("ignored")));
            },
        }
        let old_created = self.created_at.take();
        self.created_at = or_keep(string_field(fields, &created_keys), old_created);
        let old_model = self.last_model.take();
        self.last_model = or_keep(string_field(fields, &model_keys), old_model);
    }

    fn entry(&mut self, line: u64, fields: &Vec<(String, JsonValue)>, known: bool, t: String)
        ensures
            final(self).state() == entry_step(old(self).state(), line, fields@, known, t@),
    {
        let order = self.entries.len();
        let entry = entry_from(fields, line, order, known, t);
        match &entry.entry_id {
            Some(id) => {
                proof {
                    lemma_seen_lookup(self.seen@, id@);
                }
                match crate::assoc::find_last(&self.seen, id.as_str()) {
                    Some(i) => {
                        let first = self.seen[i].1;
                        self.push_diag(make_diagnostic("duplicate-entry-id", line, labelled_number("first seen at line ", first)));
                    },
                    None => {
                        let ghost before = self.seen@;
                        self.seen.push((id.clone(), line));
                        assert(seen_view(self.seen@) =~= seen_view(before).push((id@, line)));
                    },
                }
            },
            None => {},
        }
        let model = match &entry.model_ref {
            Some(m) => Some(m.clone()),
            None => None,
        };
        let old_model = self.last_model.take();
        self.last_model = or_keep(model, old_model);
        let ghost before = self.entries@;
        self.entries.push(entry);
        assert(entries_view(self.entries@) =~= entries_view(before).push(entry@));
    }

    fn record(&mut self, line: u64, frame: &[u8], fields: &Vec<(String, JsonValue)>)
        ensures
            final(self).state() == record_step(old(self).state(), line, frame@, fields@),
    {
        let type_keys = ["type", "entryType"];
        assert(keys_view(type_keys@) =~= seq!["type"@, "entryType"@]);
        let t = match string_field(fields, &type_keys) {
            Some(t) => t,
            None => String::from_str("missing-type"),
        };
        let known = is_known_type(t.as_str());
        if !known {
            let summary = UnknownEntrySummary {
                line,
                entry_type: safe_text(t.as_str(), TYPE_LIMIT),
                byte_length: frame.len(),
                sha256: sha256(frame),
            };
            let ghost before = self.unknown@;
            self.unknown.push(summary);
            assert(unknown_view(self.unknown@) =~= unknown_view(before).push(summary@));
        }
        let header = str_eq(t.as_str(), "session") || str_eq(t.as_str(), "session_meta") || str_eq(
            t.as_str(),
            "session_info",
        );
        if header {
            self.header(line, fields, t.as_str());
        }
        if str_eq(t.as_str(), "session") || str_eq(t.as_str(), "session_meta") {
            return;
        }
        self.entry(line, fields, known, t);
    }

    pub fn frame(&mut self, line: u64, frame: &[u8])
        ensures
            final(self).state() == frame_step(old(self).state(), line, frame@),
    {
        if frame.len() == 0 {
            self.push_diag(make_diagnostic("empty-frame", line, String::from_str("ignored")));
            return;
        }
        let text = match utf8_text(frame) {
            Ok(t) => t,
            Err(n) => {
                proof {
                    lemma_valid_prefix_from(frame@, frame@.len(), n as nat);
                }
                self.push_diag(make_diagnostic("invalid-utf8", line, labelled_number("byte ", n as u64)));
                return;
            },
        };
        match parse_json_text(text.as_str()) {
            Err(column) => {
                self.push_diag(make_diagnostic("malformed-json", line, labelled_number("column ", column as u64)));
            },
            Ok(value) => {
                match &value {
                    JsonValue::Object(fields) => {
                        self.record(line, frame, fields);
                    },
                    _ => {
                        self.push_diag(make_diagnostic("non-object-entry", line, String::from_str("ignored")));
                    },
                }
            },
        }
    }
}


// ---------------------------------------------------------------------------
// The report

/// Preview of the first user entry that has one.
pub open spec fn first_user_preview_spec(es: Seq<EntryView>) -> Option<Seq<char>>
    decreases es.len(),
{
    if es.len() == 0 {
        None
    } else if es[0].role == Some("user"@) && es[0].preview is Some {
        es[0].preview
    } else {
        first_user_preview_spec(es.drop_first())
    }
}

/// Preview of the last user or assistant entry that has one.
pub open spec fn last_message_preview_spec(es: Seq<EntryView>) -> Option<Seq<char>>
    decreases es.len(),
{
    if es.len() == 0 {
        None
    } else if (es.last().role == Some("user"@) || es.last().role == Some("assistant"@))
        && es.last().preview is Some {
        es.last().preview
    } else {
        last_message_preview_spec(es.drop_last())
    }
}

/// A scan's branch count is the number of nodes of its tree with more than
/// one child.
pub proof fn lemma_report_branch_count(source_name: Seq<char>, bytes: Seq<u8>)
    ensures
        scan_report_spec(source_name, bytes).branch_count == crate::tree::branch_points(
            scan_report_spec(source_name, bytes).tree,
        ),
{
    let frames = lf_frame_seq(bytes);
    let es = scan_frames(frames, frames.len()).entries;
    crate::tree::lemma_branch_count(es);
    crate::tree::lemma_tree_output_bounded(es);
    crate::tree::lemma_branch_points_bounded(crate::tree::project_tree_spec(es).nodes);
}

/// An entry the UI can quote as the user's opening message: a user entry
/// with a preview.
pub open spec fn quotable_user_message(e: EntryView) -> bool {
    e.role == Some("user"@) && e.preview is Some
}

/// The first-user preview is the preview of the earliest user entry that has
/// one; assistant and other entries never give it, and there is none when no
/// user entry has a preview.
pub proof fn lemma_first_user_preview(es: Seq<EntryView>)
    ensures
        forall|i: int|
            0 <= i < es.len() && quotable_user_message(#[trigger] es[i]) && (forall|j: int|
                0 <= j < i ==> !quotable_user_message(#[trigger] es[j])) ==> first_user_preview_spec(es)
                == es[i].preview,
        (forall|i: int| 0 <= i < es.len() ==> !quotable_user_message(#[trigger] es[i]))
            ==> first_user_preview_spec(es) is None,
    decreases es.len(),
{
    if es.len() > 0 {
        let rest = es.drop_first();
        lemma_first_user_preview(rest);
        assert forall|i: int|
            0 <= i < es.len() && quotable_user_message(#[trigger] es[i]) && (forall|j: int|
                0 <= j < i ==> !quotable_user_message(#[trigger] es[j])) implies first_user_preview_spec(es)
                == es[i].preview by {
            if i > 0 {
                assert(!quotable_user_message(es[0]));
                assert(rest[i - 1] == es[i]);
                assert forall|j: int| 0 <= j < i - 1 implies !quotable_user_message(#[trigger] rest[j]) by {
                    assert(rest[j] == es[j + 1]);
                }
            }
        }
        if forall|i: int| 0 <= i < es.len() ==> !quotable_user_message(#[trigger] es[i]) {
            assert(!quotable_user_message(es[0]));
            assert forall|i: int| 0 <= i < rest.len() implies !quotable_user_message(#[trigger] rest[i]) by {
                assert(rest[i] == es[i + 1]);
            }
        }
    }
}

/// A scan's first-user preview is that of its earliest user entry with one.
pub proof fn lemma_report_first_user_preview(source_name: Seq<char>, bytes: Seq<u8>)
    ensures
        ({
            let r = scan_report_spec(source_name, bytes);
            &&& forall|i: int|
                0 <= i < r.entries.len() && quotable_user_message(#[trigger] r.entries[i]) && (forall|j: int|
                    0 <= j < i ==> !quotable_user_message(#[trigger] r.entries[j])) ==> r.first_user_preview
                    == r.entries[i].preview
            &&& (forall|i: int| 0 <= i < r.entries.len() ==> !quotable_user_message(#[trigger] r.entries[i]))
                ==> r.first_user_preview is None
        }),
{
    let frames = lf_frame_seq(bytes);
    lemma_first_user_preview(scan_frames(frames, frames.len()).entries);
}

/// An entry the UI can quote as a message: a user or assistant entry with a
/// preview.
pub open spec fn quotable_message(e: EntryView) -> bool {
    &&& (e.role == Some("user"@) || e.role == Some("assistant"@))
    &&& e.preview is Some
}

/// The last-message preview is the preview of the last user or assistant
/// entry that has one, whichever of the two roles it has, and there is none
/// when no such entry exists.
pub proof fn lemma_last_message_preview(es: Seq<EntryView>)
    ensures
        forall|i: int|
            0 <= i < es.len() && quotable_message(#[trigger] es[i]) && (forall|j: int|
                i < j < es.len() ==> !quotable_message(#[trigger] es[j])) ==> last_message_preview_spec(es)
                == es[i].preview,
        (forall|i: int| 0 <= i < es.len() ==> !quotable_message(#[trigger] es[i]))
            ==> last_message_preview_spec(es) is None,
    decreases es.len(),
{
    if es.len() > 0 {
        let prior = es.drop_last();
        lemma_last_message_preview(prior);
        assert(es.last() == es[es.len() - 1]);
        assert forall|i: int|
            0 <= i < es.len() && quotable_message(#[trigger] es[i]) && (forall|j: int|
                i < j < es.len() ==> !quotable_message(#[trigger] es[j])) implies last_message_preview_spec(es)
                == es[i].preview by {
            if i < es.len() - 1 {
                assert(!quotable_message(es[es.len() - 1]));
                assert(prior[i] == es[i]);
                assert forall|j: int| i < j < prior.len() implies !quotable_message(#[trigger] prior[j]) by {
                    assert(prior[j] == es[j]);
                }
            }
        }
        if forall|i: int| 0 <= i < es.len() ==> !quotable_message(#[trigger] es[i]) {
            assert(!quotable_message(es[es.len() - 1]));
            assert forall|i: int| 0 <= i < prior.len() implies !quotable_message(#[trigger] prior[i]) by {
                assert(prior[i] == es[i]);
            }
        }
    }
}

/// A scan's last-message preview is that of its last quotable entry.
pub proof fn lemma_report_last_message_preview(source_name: Seq<char>, bytes: Seq<u8>)
    ensures
        ({
            let r = scan_report_spec(source_name, bytes);
            &&& forall|i: int|
                0 <= i < r.entries.len() && quotable_message(#[trigger] r.entries[i]) && (forall|j: int|
                    i < j < r.entries.len() ==> !quotable_message(#[trigger] r.entries[j])) ==> r.last_message_preview
                    == r.entries[i].preview
            &&& (forall|i: int| 0 <= i < r.entries.len() ==> !quotable_message(#[trigger] r.entries[i]))
                ==> r.last_message_preview is None
        }),
{
    let frames = lf_frame_seq(bytes);
    lemma_last_message_preview(scan_frames(frames, frames.len()).entries);
}

/// Timestamp of the last entry that has one.
pub open spec fn last_created_spec(es: Seq<EntryView>) -> Option<Seq<char>>
    decreases es.len(),
{
    if es.len() == 0 {
        None
    } else if es.last().created_at is Some {
        es.last().created_at
    } else {
        last_created_spec(es.drop_last())
    }
}

pub open spec fn image_count(es: Seq<EntryView>) -> nat
    decreases es.len(),
{
    if es.len() == 0 {
        0
    } else {
        image_count(es.drop_last()) + if es.last().has_image { 1nat } else { 0nat }
    }
}

pub open spec fn compaction_count(es: Seq<EntryView>) -> nat
    decreases es.len(),
{
    if es.len() == 0 {
        0
    } else {
        compaction_count(es.drop_last()) + if es.last().entry_type == "compaction"@ { 1nat } else { 0nat }
    }
}

/// The overall parse state: any diagnostic makes the file corrupt; else an
/// unterminated tail makes it partial; else an unknown record makes it
/// unsupported.
pub open spec fn parse_state_spec(diagnostics: nat, partial: bool, unknown: nat) -> ParseState {
    if diagnostics == 0 {
        if partial {
            ParseState::Partial
        } else if unknown == 0 {
            ParseState::Healthy
        } else {
            ParseState::Unsupported
        }
    } else {
        ParseState::Corrupt
    }
}

/// The scan report of a session file's bytes.
pub open spec fn scan_report_spec(source_name: Seq<char>, bytes: Seq<u8>) -> ReportView {
    let frames = lf_frame_seq(bytes);
    let st = scan_frames(frames, frames.len());
    let tail = lf_complete_len(bytes);
    let tree = crate::tree::project_tree_spec(st.entries);
    let diagnostics = st.diagnostics + tree.diagnostics;
    ReportView {
        source_name: safe_text_spec(source_name, TYPE_LIMIT as nat),
        file_revision: sha256_hex_of(bytes),
        source_modified: None,
        complete_bytes: tail as usize,
        partial_tail_bytes: (bytes.len() - tail) as usize,
        parse_state: parse_state_spec(diagnostics.len(), tail < bytes.len(), st.unknown.len()),
        pi_session_id: st.pi_session_id,
        session_name: st.session_name,
        project_cwd: st.project_cwd,
        created_at: st.created_at,
        updated_at: opt_seq_or(last_created_spec(st.entries), st.created_at),
        first_user_preview: first_user_preview_spec(st.entries),
        last_message_preview: last_message_preview_spec(st.entries),
        model_ref: st.last_model,
        entry_count: st.entries.len() as usize,
        image_entry_count: image_count(st.entries) as usize,
        compaction_entry_count: compaction_count(st.entries) as usize,
        branch_count: tree.branch_count as usize,
        current_leaf_id: tree.current_leaf_id,
        roots: tree.roots,
        orphan_ids: tree.orphan_ids,
        cycle_ids: tree.cycle_ids,
        unknown_entries: st.unknown,
        diagnostics,
        entries: st.entries,
        tree: tree.nodes,
        timeline_blocks: crate::timeline::generic_blocks_spec(st.entries),
    }
}

fn first_user_preview(entries: &Vec<IndexedEntry>) -> (r: Option<String>)
    ensures
        opt_view(r) == first_user_preview_spec(entries_view(entries@)),
{
    let ghost es = entries_view(entries@);
    let mut i: usize = 0;
    assert(es.skip(0) =~= es);
    while i < entries.len()
        invariant
            i <= entries@.len(),
            es == entries_view(entries@),
            first_user_preview_spec(es) == first_user_preview_spec(es.skip(i as int)),
        decreases entries.len() - i,
    {
        assert(es.skip(i as int)[0] == entries@[i as int]@);
        assert(es.skip(i as int).drop_first() =~= es.skip(i + 1));
        let user = match &entries[i].role {
            Some(r) => str_eq(r.as_str(), "user"),
            None => false,
        };
        if user {
            match &entries[i].preview {
                Some(p) => {
                    return Some(p.clone());
                },
                None => {},
            }
        }
        i = i + 1;
    }
    assert(es.skip(i as int).len() == 0);
    None
}

fn last_message_preview(entries: &Vec<IndexedEntry>) -> (r: Option<String>)
    ensures
        opt_view(r) == last_message_preview_spec(entries_view(entries@)),
{
    let ghost es = entries_view(entries@);
    let mut i = entries.len();
    assert(es.take(i as int) =~= es);
    while i > 0
        invariant
            i <= entries@.len(),
            es == entries_view(entries@),
            last_message_preview_spec(es) == last_message_preview_spec(es.take(i as int)),
        decreases i,
    {
        assert(es.take(i as int).last() == entries@[i - 1]@);
        assert(es.take(i as int).drop_last() =~= es.take(i - 1));
        let e = &entries[i - 1];
        let chat = match &e.role {
            Some(r) => str_eq(r.as_str(), "user") || str_eq(r.as_str(), "assistant"),
            None => false,
        };
        if chat {
            match &e.preview {
                Some(p) => {
                    return Some(p.clone());
                },
                None => {},
            }
        }
        i = i - 1;
    }
    None
}

fn last_created(entries: &Vec<IndexedEntry>) -> (r: Option<String>)
    ensures
        opt_view(r) == last_created_spec(entries_view(entries@)),
{
    let ghost es = entries_view(entries@);
    let mut i = entries.len();
    assert(es.take(i as int) =~= es);
    while i > 0
        invariant
            i <= entries@.len(),
            es == entries_view(entries@),
            last_created_spec(es) == last_created_spec(es.take(i as int)),
        decreases i,
    {
        assert(es.take(i as int).last() == entries@[i - 1]@);
        assert(es.take(i as int).drop_last() =~= es.take(i - 1));
        match &entries[i - 1].created_at {
            Some(c) => {
                return Some(c.clone());
            },
            None => {},
        }
        i = i - 1;
    }
    None
}

fn entry_counts(entries: &Vec<IndexedEntry>) -> (r: (usize, usize))
    ensures
        r.0 == image_count(entries_view(entries@)),
        r.1 == compaction_count(entries_view(entries@)),
{
    let ghost es = entries_view(entries@);
    let mut images: usize = 0;
    let mut compactions: usize = 0;
    let mut i: usize = 0;
    while i < entries.len()
        invariant
            i <= entries@.len(),
            es == entries_view(entries@),
            images <= i,
            compactions <= i,
            images == image_count(es.take(i as int)),
            compactions == compaction_count(es.take(i as int)),
        decreases entries.len() - i,
    {
        assert(es.take(i + 1).drop_last() =~= es.take(i as int));
        assert(es.take(i + 1).last() == entries@[i as int]@);
        if entries[i].has_image {
            images = images + 1;
        }
        if str_eq(entries[i].entry_type.as_str(), "compaction") {
            compactions = compactions + 1;
        }
        i = i + 1;
    }
    assert(es.take(entries@.len() as int) =~= es);
    (images, compactions)
}

/// Scans a session file's bytes into a payload-safe report.
pub fn scan_bytes(source_name: &str, bytes: &[u8]) -> (r: ScanReport)
    ensures
        r@ == scan_report_spec(source_name@, bytes@),
{
    let (frames, tail_start) = lf_frames(bytes);
    let ghost fs = lf_frame_seq(bytes@);
    let mut scanner = Scanner::new();
    let mut i: usize = 0;
    while i < frames.len()
        invariant
            i <= frames@.len(),
            frames@.len() == fs.len(),
            fs == lf_frame_seq(bytes@),
            forall|j: int| 0 <= j < frames@.len() ==> (#[trigger] frames@[j]).0 == j + 1 && frames@[j].1@ == fs[j],
            scanner.state() == scan_frames(fs, i as nat),
        decreases frames.len() - i,
    {
        let (line, frame) = frames[i];
        scanner.frame(line, frame);
        i = i + 1;
    }
    proof {
        crate::scan::lemma_lf_state(bytes@);
    }
    let tree = crate::tree::project_tree(&scanner.entries);
    let ghost st = scanner.state();
    let mut diagnostics = scanner.diagnostics;
    let ghost d0 = diagnostics@;
    let mut tree_diags = tree.diagnostics;
    diagnostics.append(&mut tree_diags);
    proof {
        assert(diagnostics_view(diagnostics@) =~= st.diagnostics + tree.view().diagnostics);
    }
    let first_user = first_user_preview(&scanner.entries);
    let last_message = last_message_preview(&scanner.entries);
    let partial = tail_start < bytes.len();
    let parse_state = if diagnostics.len() == 0 {
        if partial {
            ParseState::Partial
        } else if scanner.unknown.len() == 0 {
            ParseState::Healthy
        } else {
            ParseState::Unsupported
        }
    } else {
        ParseState::Corrupt
    };
    let updated_at = match last_created(&scanner.entries) {
        Some(c) => Some(c),
        None => match &scanner.created_at {
            Some(c) => Some(c.clone()),
            None => None,
        },
    };
    let (images, compactions) = entry_counts(&scanner.entries);
    let timeline_blocks = crate::timeline::generic_blocks(&scanner.entries);
    let entry_count = scanner.entries.len();
    ScanReport {
        source_name: safe_text(source_name, TYPE_LIMIT),
        file_revision: sha256(bytes),
        source_modified: None,
        complete_bytes: tail_start,
        partial_tail_bytes: bytes.len() - tail_start,
        parse_state,
        pi_session_id: scanner.pi_session_id,
        session_name: scanner.session_name,
        project_cwd: scanner.project_cwd,
        created_at: scanner.created_at,
        updated_at,
        first_user_preview: first_user,
        last_message_preview: last_message,
        model_ref: scanner.last_model,
        entry_count,
        image_entry_count: images,
        compaction_entry_count: compactions,
        branch_count: tree.branch_count,
        current_leaf_id: tree.current_leaf_id,
        roots: tree.roots,
        orphan_ids: tree.orphan_ids,
        cycle_ids: tree.cycle_ids,
        unknown_entries: scanner.unknown,
        diagnostics,
        entries: scanner.entries,
        tree: tree.nodes,
        timeline_blocks,
    }
}

/// The scan report with the render projection as its timeline.
pub fn scan_bytes_for_display_with_root(source_name: &str, bytes: &[u8], project_root: Option<&str>) -> (r: ScanReport)
    ensures
        r@ == (ReportView {
            timeline_blocks: crate::semantic::semantic_blocks_spec(bytes@, crate::json::str_view(project_root)),
            ..scan_report_spec(source_name@, bytes@)
        }),
{
    let mut report = scan_bytes(source_name, bytes);
    report.timeline_blocks = crate::semantic::semantic_blocks(bytes, project_root);
    report
}

/// The scan report with the render projection as its timeline, without a
/// known project root.
pub fn scan_bytes_for_display(source_name: &str, bytes: &[u8]) -> (r: ScanReport)
    ensures
        r@ == (ReportView {
            timeline_blocks: crate::semantic::semantic_blocks_spec(bytes@, None),
            ..scan_report_spec(source_name@, bytes@)
        }),
{
    scan_bytes_for_display_with_root(source_name, bytes, None)
}

} // verus!
