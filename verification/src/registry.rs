//! The rules of the project registry and session cache: discovery
//! generations, search plans, stored-row validation, and what a persisted
//! session row says. The host runs the SQL; each decision about its inputs
//! and results is made here.
use vstd::prelude::*;
use crate::api::{trim_str, trim_ws};
use crate::catalog::{
    IndexError, StoredField, TrustState, TitleSource, ProjectSummary, SessionSummary, trust_from_name,
    title_source_from_name, parse_state_from_name, parse_state_from_db, title_from_report, title_spec,
};
use crate::catalog_stream::{PlatformFileIdentity, SourceFingerprint, identity_from_text, DISCOVERY_FINGERPRINT_PARSER_VERSION};
use crate::discovery_walk::CatalogSourceFingerprint;
use crate::host_file::HostSessionFile;
use crate::report::{ParseState, ScanReport};
use crate::scan::{is_sha256_hex, sha256_hex_shape};
use crate::text::opt_view;
use crate::contributions::{parse_u64, parse_u64_spec};
use crate::discovery::SessionDiscoveryStats;
use crate::host_file::{display_leaf, safe_display_path};
use crate::scan::PREVIEW_LIMIT;
use crate::text::{
    drop_controls, drop_control_chars, push_str, safe_text, safe_text_spec, str_chars,
    string_from_chars, string_push, str_eq,
};

verus! {

/// Most characters a session search query may have after trimming.
pub const SESSION_SEARCH_QUERY_MAX_CHARS: usize = 120;
/// Most sessions one search returns.
pub const SESSION_SEARCH_RESULT_LIMIT: i64 = 50;
/// Most projects one search may name.
pub const SESSION_SEARCH_PROJECT_ID_LIMIT: usize = 64;
/// Most candidate rows one multi-project search examines, shared evenly.
pub const SESSION_SEARCH_CANDIDATE_ROW_BUDGET: usize = 256;
/// The state key of the stored preferences.
pub const PREFERENCES_STATE_KEY: &'static str = "piui.preferences.v1";

// ---------------------------------------------------------------------------
// Discovery generations

pub open spec fn generation_key_spec(project_id: Seq<char>) -> Seq<char> {
    "project-discovery-generation:"@ + project_id
}

/// The state key under which a project's discovery generation is stored.
pub fn project_generation_key(project_id: &str) -> (r: String)
    ensures
        r@ == generation_key_spec(project_id@),
{
    let mut key = String::new();
    push_str(&mut key, "project-discovery-generation:");
    push_str(&mut key, project_id);
    key
}

/// A stored generation: an integer (optionally `+`-signed) from one to
/// `i64::MAX`.
pub open spec fn generation_spec(value: Seq<char>) -> Option<i64> {
    match parse_u64_spec(value) {
        Some(m) => if 1 <= m && m <= i64::MAX {
            Some(m as i64)
        } else {
            None
        },
        None => None,
    }
}

pub fn parse_project_generation(value: &str) -> (r: Result<i64, IndexError>)
    ensures
        r == (match generation_spec(value@) {
            Some(g) => Ok(g),
            None => Err(IndexError::ProjectDiscoveryGenerationUnavailable),
        }),
{
    match parse_u64(value) {
        Some(m) => if 1 <= m && m <= 9_223_372_036_854_775_807u64 {
            Ok(m as i64)
        } else {
            Err(IndexError::ProjectDiscoveryGenerationUnavailable)
        },
        None => Err(IndexError::ProjectDiscoveryGenerationUnavailable),
    }
}

/// The generation a new discovery pass of a project gets: one for a
/// project without one, else one past the stored generation, which must be
/// valid and not the largest.
pub open spec fn next_generation_spec(exists: bool, previous: Option<Seq<char>>) -> Result<i64, IndexError> {
    if !exists {
        Err(IndexError::ProjectNotRegistered)
    } else {
        match previous {
            None => Ok(1i64),
            Some(v) => match generation_spec(v) {
                Some(g) => if g < i64::MAX {
                    Ok((g + 1) as i64)
                } else {
                    Err(IndexError::ProjectDiscoveryGenerationUnavailable)
                },
                None => Err(IndexError::ProjectDiscoveryGenerationUnavailable),
            },
        }
    }
}

pub fn allocate_generation(exists: bool, previous: Option<&str>) -> (r: Result<i64, IndexError>)
    ensures
        r == next_generation_spec(exists, crate::api::opt_str_view(previous)),
{
    if !exists {
        return Err(IndexError::ProjectNotRegistered);
    }
    match previous {
        None => Ok(1),
        Some(v) => {
            let g = parse_project_generation(v)?;
            if g < 9_223_372_036_854_775_807i64 {
                Ok(g + 1)
            } else {
                Err(IndexError::ProjectDiscoveryGenerationUnavailable)
            }
        },
    }
}

/// A pass may commit only for a registered project whose stored generation
/// is exactly the pass's own.
pub open spec fn generation_check_spec(exists: bool, stored: Option<Seq<char>>, generation: i64) -> Result<(), IndexError> {
    if !exists {
        Err(IndexError::ProjectNotRegistered)
    } else if (match stored {
        Some(v) => generation_spec(v) == Some(generation),
        None => false,
    }) {
        Ok(())
    } else {
        Err(IndexError::ProjectDiscoveryGenerationUnavailable)
    }
}

pub fn check_project_generation(exists: bool, stored: Option<&str>, generation: i64) -> (r: Result<(), IndexError>)
    ensures
        r == generation_check_spec(exists, crate::api::opt_str_view(stored), generation),
{
    if !exists {
        return Err(IndexError::ProjectNotRegistered);
    }
    let current = match stored {
        Some(v) => match parse_project_generation(v) {
            Ok(g) => Some(g),
            Err(_) => None,
        },
        None => None,
    };
    match current {
        Some(g) => if g == generation {
            Ok(())
        } else {
            Err(IndexError::ProjectDiscoveryGenerationUnavailable)
        },
        None => Err(IndexError::ProjectDiscoveryGenerationUnavailable),
    }
}

/// A generation stored as its decimal spelling reads back as itself, so the
/// generation a pass is allocated is the one its commit is checked against;
/// an allocation after a valid one is exactly one more.
pub proof fn lemma_generation_round_trip(previous: Option<Seq<char>>)
    ensures
        match next_generation_spec(true, previous) {
            Ok(g) => {
                &&& g >= 1
                &&& generation_check_spec(true, Some(crate::text::decimal(g as nat)), g) == Ok::<(), IndexError>(())
                &&& (match previous {
                    Some(v) => generation_spec(v) == Some((g - 1) as i64),
                    None => g == 1,
                })
            },
            Err(e) => e == IndexError::ProjectDiscoveryGenerationUnavailable,
        },
{
    match next_generation_spec(true, previous) {
        Ok(g) => {
            crate::contributions::lemma_parse_decimal(g as u64);
        },
        Err(_) => {},
    }
}

/// Whether unseen rows of a project may be swept: only after a complete
/// pass (an incomplete one sweeps nothing, and is no error), and only for
/// the pass's own generation.
pub fn sweep_permitted(stats: &SessionDiscoveryStats, exists: bool, stored: Option<&str>, generation: i64) -> (r: Result<bool, IndexError>)
    ensures
        !stats.complete() ==> r == Ok::<bool, IndexError>(false),
        stats.complete() ==> r == (match generation_check_spec(exists, crate::api::opt_str_view(stored), generation) {
            Ok(_) => Ok::<bool, IndexError>(true),
            Err(e) => Err(e),
        }),
{
    if !stats.is_complete() {
        return Ok(false);
    }
    check_project_generation(exists, stored, generation)?;
    Ok(true)
}

/// A batch commit is complete when the pass covered everything and every
/// unchanged observation matched its stored row.
pub fn batch_complete(stats: &SessionDiscoveryStats, marked: usize, observations: usize) -> (r: bool)
    ensures
        r == (stats.complete() && marked == observations),
{
    stats.is_complete() && marked == observations
}

// ---------------------------------------------------------------------------
// Names

/// A project name: controls dropped, then normalized; refused when nothing
/// remains.
pub open spec fn sanitized_name_spec(value: Seq<char>) -> Option<Seq<char>> {
    let n = safe_text_spec(drop_controls(value), PREVIEW_LIMIT as nat);
    if n.len() > 0 {
        Some(n)
    } else {
        None
    }
}

pub fn sanitize_project_name(value: &str) -> (r: Option<String>)
    ensures
        crate::text::opt_view(r) == sanitized_name_spec(value@),
{
    let chars = str_chars(value);
    let visible = drop_control_chars(&chars);
    let without_controls = string_from_chars(&visible);
    let normalized = safe_text(without_controls.as_str(), PREVIEW_LIMIT);
    if normalized.as_str().is_empty() {
        None
    } else {
        Some(normalized)
    }
}

/// A rename's new name, or `InvalidProjectName` when it sanitizes to nothing.
pub fn validated_project_name(name: &str) -> (r: Result<String, IndexError>)
    ensures
        match r {
            Ok(n) => sanitized_name_spec(name@) == Some(n@),
            Err(e) => e == IndexError::InvalidProjectName && sanitized_name_spec(name@) is None,
        },
{
    match sanitize_project_name(name) {
        Some(n) => Ok(n),
        None => Err(IndexError::InvalidProjectName),
    }
}

/// A newly registered project's name: the given name, normalized, unless
/// that is empty; else the directory's display leaf.
pub open spec fn new_project_name_spec(name: Option<Seq<char>>, canonical_path: Seq<char>) -> Seq<char> {
    let given = match name {
        Some(n) => safe_text_spec(n, PREVIEW_LIMIT as nat),
        None => Seq::empty(),
    };
    if given.len() > 0 {
        given
    } else {
        display_leaf(canonical_path)
    }
}

pub fn new_project_name(name: Option<&str>, canonical_path: &str) -> (r: String)
    ensures
        r@ == new_project_name_spec(crate::api::opt_str_view(name), canonical_path@),
{
    match name {
        Some(n) => {
            let given = safe_text(n, PREVIEW_LIMIT);
            if !given.as_str().is_empty() {
                return given;
            }
        },
        None => {},
    }
    let display = safe_display_path(canonical_path);
    let chars = str_chars(display.as_str());
    proof {
        reveal_strlit("…/");
        assert(chars@.skip(2) =~= display_leaf(canonical_path@));
    }
    crate::text::string_from_range(&chars, 2, chars.len())
}

/// How a registration proceeds: a row with this exact identity is kept; a
/// row at the same path with another (or no) identity is a replacement,
/// which resets its trust; otherwise a new row is inserted.
#[derive(Clone, Copy, Debug, PartialEq, Eq, Structural)]
pub enum ProjectRegistration {
    Existing,
    ReplaceIdentity,
    Insert,
}

pub fn registration_action(found: bool, stored_identity: Option<&str>, identity: &str) -> (r: ProjectRegistration)
    ensures
        r == (if !found {
            ProjectRegistration::Insert
        } else if crate::api::opt_str_view(stored_identity) == Some(identity@) {
            ProjectRegistration::Existing
        } else {
            ProjectRegistration::ReplaceIdentity
        }),
{
    if !found {
        return ProjectRegistration::Insert;
    }
    match stored_identity {
        Some(s) => if str_eq(s, identity) {
            ProjectRegistration::Existing
        } else {
            ProjectRegistration::ReplaceIdentity
        },
        None => ProjectRegistration::ReplaceIdentity,
    }
}

// ---------------------------------------------------------------------------
// Search

/// The Unicode lower case of a text, as `str::to_lowercase` gives it.
pub uninterp spec fn lowercase_of(s: Seq<char>) -> Seq<char>;

/// `str::to_lowercase`: the lower case named above, of `value`.
#[verifier::external_body]
fn to_lowercase(value: &str) -> (r: String)
    ensures
        r@ == lowercase_of(value@),
{
    value.to_lowercase()
}

/// A LIKE pattern matching `s` literally: `%`, `_` and `\` are escaped
/// with `\`.
pub open spec fn escape_like_spec(s: Seq<char>) -> Seq<char>
    decreases s.len(),
{
    if s.len() == 0 {
        Seq::empty()
    } else {
        let c = s.last();
        if c == '%' || c == '_' || c == '\\' {
            escape_like_spec(s.drop_last()).push('\\').push(c)
        } else {
            escape_like_spec(s.drop_last()).push(c)
        }
    }
}

pub fn escape_like_pattern(value: &str) -> (r: String)
    ensures
        r@ == escape_like_spec(value@),
{
    let chars = str_chars(value);
    let mut escaped = String::new();
    let mut i: usize = 0;
    while i < chars.len()
        invariant
            chars@ == value@,
            i <= chars@.len(),
            escaped@ == escape_like_spec(chars@.take(i as int)),
        decreases chars.len() - i,
    {
        let c = chars[i];
        assert(chars@.take(i + 1).drop_last() =~= chars@.take(i as int));
        assert(chars@.take(i + 1).last() == c);
        if c == '%' || c == '_' || c == '\\' {
            string_push(&mut escaped, '\\');
        }
        string_push(&mut escaped, c);
        i = i + 1;
    }
    assert(chars@.take(chars@.len() as int) =~= chars@);
    escaped
}

/// A query is searchable when, trimmed, it has one to the most characters.
pub open spec fn query_accepted(query: Seq<char>) -> bool {
    0 < trim_ws(query).len() && trim_ws(query).len() <= SESSION_SEARCH_QUERY_MAX_CHARS
}

/// The pattern a query searches with: its trimmed lower case, matched
/// literally anywhere.
pub open spec fn search_pattern_spec(query: Seq<char>) -> Seq<char> {
    "%"@ + escape_like_spec(lowercase_of(trim_ws(query))) + "%"@
}

pub fn session_search_pattern(query: &str) -> (r: Result<String, IndexError>)
    ensures
        match r {
            Ok(p) => query_accepted(query@) && p@ == search_pattern_spec(query@),
            Err(e) => e == IndexError::InvalidSessionSearchQuery && !query_accepted(query@),
        },
{
    let trimmed = trim_str(query);
    let n = str_chars(trimmed.as_str()).len();
    if n == 0 || n > SESSION_SEARCH_QUERY_MAX_CHARS {
        return Err(IndexError::InvalidSessionSearchQuery);
    }
    let lower = to_lowercase(trimmed.as_str());
    let escaped = escape_like_pattern(lower.as_str());
    let mut pattern = String::new();
    push_str(&mut pattern, "%");
    push_str(&mut pattern, escaped.as_str());
    push_str(&mut pattern, "%");
    Ok(pattern)
}

/// How many active projects a search allowlist may hold: none when asked
/// for none, else at most the project bound.
pub fn search_project_limit(limit: usize) -> (r: Option<usize>)
    ensures
        limit == 0 ==> r is None,
        limit > 0 ==> r == Some(if limit < SESSION_SEARCH_PROJECT_ID_LIMIT { limit } else { SESSION_SEARCH_PROJECT_ID_LIMIT }),
{
    if limit == 0 {
        None
    } else if limit < SESSION_SEARCH_PROJECT_ID_LIMIT {
        Some(limit)
    } else {
        Some(SESSION_SEARCH_PROJECT_ID_LIMIT)
    }
}


/// Code point order of texts (the byte order of their UTF-8 encodings).
pub open spec fn chars_lt(a: Seq<char>, b: Seq<char>) -> bool
    decreases a.len(),
{
    if b.len() == 0 {
        false
    } else if a.len() == 0 {
        true
    } else if a[0] != b[0] {
        a[0] < b[0]
    } else {
        chars_lt(a.drop_first(), b.drop_first())
    }
}

pub proof fn lemma_chars_lt_irreflexive(a: Seq<char>)
    ensures
        !chars_lt(a, a),
    decreases a.len(),
{
    if a.len() > 0 {
        lemma_chars_lt_irreflexive(a.drop_first());
    }
}

pub proof fn lemma_chars_lt_transitive(a: Seq<char>, b: Seq<char>, c: Seq<char>)
    requires
        chars_lt(a, b),
        chars_lt(b, c),
    ensures
        chars_lt(a, c),
    decreases a.len(),
{
    if a.len() > 0 && b.len() > 0 && c.len() > 0 && a[0] == b[0] && b[0] == c[0] {
        lemma_chars_lt_transitive(a.drop_first(), b.drop_first(), c.drop_first());
    }
}

pub proof fn lemma_chars_lt_total(a: Seq<char>, b: Seq<char>)
    ensures
        a == b || chars_lt(a, b) || chars_lt(b, a),
    decreases a.len(),
{
    if a.len() > 0 && b.len() > 0 && a[0] == b[0] {
        lemma_chars_lt_total(a.drop_first(), b.drop_first());
        if a.drop_first() == b.drop_first() {
            assert(a =~= seq![a[0]] + a.drop_first());
            assert(b =~= seq![b[0]] + b.drop_first());
        }
    } else if a.len() == 0 && b.len() == 0 {
        assert(a =~= b);
    }
}

fn chars_less(a: &str, b: &str) -> (r: bool)
    ensures
        r == chars_lt(a@, b@),
{
    let x = str_chars(a);
    let y = str_chars(b);
    let mut i: usize = 0;
    assert(x@.skip(0) =~= x@ && y@.skip(0) =~= y@);
    while i < x.len() && i < y.len() && x[i] == y[i]
        invariant
            x@ == a@,
            y@ == b@,
            i <= x@.len(),
            i <= y@.len(),
            chars_lt(a@, b@) == chars_lt(x@.skip(i as int), y@.skip(i as int)),
        decreases x.len() - i,
    {
        assert(x@.skip(i as int).drop_first() =~= x@.skip(i + 1));
        assert(y@.skip(i as int).drop_first() =~= y@.skip(i + 1));
        i = i + 1;
    }
    if i == y.len() {
        false
    } else if i == x.len() {
        true
    } else {
        assert(x@.skip(i as int)[0] == x@[i as int]);
        assert(y@.skip(i as int)[0] == y@[i as int]);
        x[i] < y[i]
    }
}

proof fn lemma_push_contains(s: Seq<Seq<char>>, v: Seq<char>, x: Seq<char>)
    ensures
        s.push(v).contains(x) <==> (s.contains(x) || x == v),
{
    if s.push(v).contains(x) {
        let i = choose|i: int| 0 <= i < s.push(v).len() && s.push(v)[i] == x;
        if i < s.len() {
            assert(s[i] == x);
        }
    }
    if s.contains(x) {
        let i = choose|i: int| 0 <= i < s.len() && s[i] == x;
        assert(s.push(v)[i] == x);
    }
    if x == v {
        assert(s.push(v)[s.len() as int] == x);
    }
}

/// Strictly increasing in code point order: sorted, with nothing twice.
pub open spec fn strictly_sorted(s: Seq<Seq<char>>) -> bool {
    forall|i: int, j: int| 0 <= i < j < s.len() ==> chars_lt(#[trigger] s[i], #[trigger] s[j])
}

/// The distinct ids, in code point order.
pub fn sorted_distinct(ids: &[String]) -> (r: Vec<String>)
    ensures
        strictly_sorted(crate::report::strings_view(r@)),
        forall|x: Seq<char>| crate::report::strings_view(r@).contains(x) <==> crate::report::strings_view(ids@).contains(x),
{
    let mut out: Vec<String> = Vec::new();
    let mut k: usize = 0;
    while k < ids.len()
        invariant
            k <= ids@.len(),
            strictly_sorted(crate::report::strings_view(out@)),
            forall|x: Seq<char>| crate::report::strings_view(out@).contains(x)
                <==> crate::report::strings_view(ids@.take(k as int)).contains(x),
        decreases ids.len() - k,
    {
        let id = ids[k].as_str();
        let ghost ov = crate::report::strings_view(out@);
        let mut pos: usize = 0;
        while pos < out.len() && chars_less(out[pos].as_str(), id)
            invariant
                pos <= out@.len(),
                ov == crate::report::strings_view(out@),
                forall|j: int| 0 <= j < pos ==> chars_lt(#[trigger] ov[j], id@),
            decreases out.len() - pos,
        {
            pos = pos + 1;
        }
        let present = pos < out.len() && str_eq(out[pos].as_str(), id);
        proof {
            assert(ids@.take(k + 1) =~= ids@.take(k as int).push(ids@[k as int]));
            assert(crate::report::strings_view(ids@.take(k + 1)) =~= crate::report::strings_view(ids@.take(k as int)).push(id@));
        }
        if !present {
            proof {
                if pos < ov.len() {
                    lemma_chars_lt_total(ov[pos as int], id@);
                    assert(chars_lt(id@, ov[pos as int]));
                    assert forall|j: int| pos <= j < ov.len() implies chars_lt(id@, #[trigger] ov[j]) by {
                        if j > pos {
                            lemma_chars_lt_transitive(id@, ov[pos as int], ov[j]);
                        }
                    }
                }
            }
            out.insert(pos, ids[k].clone());
            proof {
                let nv = crate::report::strings_view(out@);
                assert(nv =~= ov.insert(pos as int, id@));
                assert forall|i: int, j: int| 0 <= i < j < nv.len() implies chars_lt(#[trigger] nv[i], #[trigger] nv[j]) by {
                    if j < pos {
                        assert(nv[i] == ov[i] && nv[j] == ov[j]);
                    } else if j == pos {
                        assert(nv[i] == ov[i]);
                    } else if i < pos {
                        assert(nv[i] == ov[i] && nv[j] == ov[j - 1]);
                        if pos < ov.len() {
                            lemma_chars_lt_transitive(ov[i], id@, ov[j - 1]);
                        }
                    } else if i == pos {
                        assert(nv[j] == ov[j - 1]);
                    } else {
                        assert(nv[i] == ov[i - 1] && nv[j] == ov[j - 1]);
                    }
                }
                assert forall|x: Seq<char>| nv.contains(x) <==> (ov.contains(x) || x == id@) by {
                    if nv.contains(x) {
                        let i = choose|i: int| 0 <= i < nv.len() && nv[i] == x;
                        if i < pos {
                            assert(ov[i] == x);
                        } else if i > pos {
                            assert(ov[i - 1] == x);
                        }
                    }
                    if ov.contains(x) {
                        let i = choose|i: int| 0 <= i < ov.len() && ov[i] == x;
                        if i < pos {
                            assert(nv[i] == x);
                        } else {
                            assert(nv[i + 1] == x);
                        }
                    }
                    if x == id@ {
                        assert(nv[pos as int] == x);
                    }
                }
            }
        } else {
            proof {
                assert(ov[pos as int] == id@);
            }
        }
        proof {
            assert forall|x: Seq<char>| crate::report::strings_view(out@).contains(x)
                <==> crate::report::strings_view(ids@.take(k + 1)).contains(x) by {
                lemma_push_contains(crate::report::strings_view(ids@.take(k as int)), id@, x);
            }
        }
        k = k + 1;
    }
    assert(ids@.take(ids@.len() as int) =~= ids@);
    out
}

/// What a multi-project search runs: the distinct allowed projects in code
/// point order, the query's pattern, how many newest rows of each project it
/// examines (the row budget shared evenly, at least one), and how many
/// results it returns.
pub struct SessionSearchPlan {
    pub project_ids: Vec<String>,
    pub pattern: String,
    pub candidates_per_project: usize,
    pub result_limit: usize,
}

/// Plans a search over an explicit project allowlist. An empty allowlist or
/// a zero limit searches nothing (`None`): it never widens into a search of
/// every project.
pub fn plan_session_search(project_ids: &[String], query: &str, limit: usize) -> (r: Result<Option<SessionSearchPlan>, IndexError>)
    ensures
        project_ids@.len() == 0 || limit == 0 ==> r matches Ok(None),
        project_ids@.len() > 0 && limit > 0 && project_ids@.len() > SESSION_SEARCH_PROJECT_ID_LIMIT
            ==> r == Err::<Option<SessionSearchPlan>, IndexError>(IndexError::SessionSearchProjectLimitExceeded),
        project_ids@.len() > 0 && limit > 0 && project_ids@.len() <= SESSION_SEARCH_PROJECT_ID_LIMIT && !query_accepted(query@)
            ==> r == Err::<Option<SessionSearchPlan>, IndexError>(IndexError::InvalidSessionSearchQuery),
        project_ids@.len() > 0 && limit > 0 && project_ids@.len() <= SESSION_SEARCH_PROJECT_ID_LIMIT && query_accepted(query@)
            ==> (r matches Ok(Some(plan)) && {
                let ids = crate::report::strings_view(plan.project_ids@);
                &&& strictly_sorted(ids)
                &&& forall|x: Seq<char>| ids.contains(x) <==> crate::report::strings_view(project_ids@).contains(x)
                &&& plan.pattern@ == search_pattern_spec(query@)
                &&& ids.len() > 0
                &&& plan.candidates_per_project as int == (if SESSION_SEARCH_CANDIDATE_ROW_BUDGET as int / ids.len() as int >= 1 {
                    SESSION_SEARCH_CANDIDATE_ROW_BUDGET as int / ids.len() as int
                } else {
                    1int
                })
                &&& plan.result_limit == (if limit < SESSION_SEARCH_RESULT_LIMIT { limit } else { SESSION_SEARCH_RESULT_LIMIT as usize })
            }),
{
    if project_ids.len() == 0 || limit == 0 {
        return Ok(None);
    }
    if project_ids.len() > SESSION_SEARCH_PROJECT_ID_LIMIT {
        return Err(IndexError::SessionSearchProjectLimitExceeded);
    }
    let ids = sorted_distinct(project_ids);
    let pattern = session_search_pattern(query)?;
    proof {
        let v = crate::report::strings_view(ids@);
        let first = crate::report::strings_view(project_ids@)[0];
        assert(crate::report::strings_view(project_ids@).contains(first));
        assert(v.contains(first));
    }
    let share = SESSION_SEARCH_CANDIDATE_ROW_BUDGET / ids.len();
    let candidates_per_project = if share >= 1 { share } else { 1 };
    let result_limit = if limit < 50 { limit } else { 50 };
    Ok(Some(SessionSearchPlan { project_ids: ids, pattern, candidates_per_project, result_limit }))
}


// ---------------------------------------------------------------------------
// Stored rows

/// A stored project row, validated: its trust must be a stored spelling and
/// its pin flag 0 or 1; a set `missing_since` marks it missing.
pub fn project_summary_from_row(
    id: String,
    name: String,
    display_path: String,
    trust: &str,
    pinned: i64,
    missing_since: Option<i64>,
    last_opened_at: Option<i64>,
) -> (r: Result<ProjectSummary, IndexError>)
    ensures
        match trust_from_name(trust@) {
            None => r == Err::<ProjectSummary, IndexError>(IndexError::InvalidStoredValue(StoredField::TrustState)),
            Some(t) => if pinned != 0 && pinned != 1 {
                r == Err::<ProjectSummary, IndexError>(IndexError::InvalidStoredValue(StoredField::Pinned))
            } else {
                r matches Ok(p) && p.id@ == id@ && p.name@ == name@ && p.display_path@ == display_path@
                    && p.trust_state == t && p.pinned == (pinned == 1) && p.missing == (missing_since is Some)
                    && p.last_opened_at == last_opened_at
            },
        },
{
    let trust_state = TrustState::from_db(trust)?;
    let pinned = if pinned == 0 {
        false
    } else if pinned == 1 {
        true
    } else {
        return Err(IndexError::InvalidStoredValue(StoredField::Pinned));
    };
    Ok(ProjectSummary {
        id,
        name,
        display_path,
        trust_state,
        pinned,
        missing: missing_since.is_some(),
        last_opened_at,
    })
}

/// A stored session row, validated: its title source and parse state must
/// be stored spellings. Its preview is the last message preview, else the
/// first user preview.
pub fn session_summary_from_row(
    id: String,
    project_id: Option<String>,
    title: String,
    title_source: &str,
    created_at: Option<String>,
    updated_at: Option<String>,
    first_user_preview: Option<String>,
    last_message_preview: Option<String>,
    entry_count: i64,
    branch_count: Option<i64>,
    parse_state: &str,
    model_ref: Option<String>,
) -> (r: Result<SessionSummary, IndexError>)
    ensures
        match (title_source_from_name(title_source@), parse_state_from_name(parse_state@)) {
            (None, _) => r == Err::<SessionSummary, IndexError>(IndexError::InvalidStoredValue(StoredField::TitleSource)),
            (Some(_), None) => r == Err::<SessionSummary, IndexError>(IndexError::InvalidStoredValue(StoredField::ParseState)),
            (Some(ts), Some(ps)) => r matches Ok(s) && {
                &&& s.id@ == id@
                &&& opt_view(s.project_id) == opt_view(project_id)
                &&& s.title@ == title@
                &&& s.title_source == ts
                &&& opt_view(s.created_at) == opt_view(created_at)
                &&& opt_view(s.updated_at) == opt_view(updated_at)
                &&& opt_view(s.preview) == (if last_message_preview is Some { opt_view(last_message_preview) } else { opt_view(first_user_preview) })
                &&& s.entry_count == entry_count as usize
                &&& s.branch_count == (match branch_count { Some(b) => Some(b as usize), None => None })
                &&& s.parse_state == ps
                &&& opt_view(s.model_ref) == opt_view(model_ref)
            },
        },
{
    let title_source = TitleSource::from_db(title_source)?;
    let parse_state = parse_state_from_db(parse_state)?;
    let preview = match last_message_preview {
        Some(last) => Some(last),
        None => first_user_preview,
    };
    Ok(SessionSummary {
        id,
        project_id,
        title,
        title_source,
        created_at,
        updated_at,
        preview,
        entry_count: entry_count as usize,
        branch_count: match branch_count {
            Some(b) => Some(b as usize),
            None => None,
        },
        parse_state,
        model_ref,
    })
}

fn clone_opt(o: &Option<String>) -> (r: Option<String>)
    ensures
        opt_view(r) == opt_view(*o),
{
    match o {
        Some(s) => Some(s.clone()),
        None => None,
    }
}

/// The summary a persisted scan row lists: the title from the report,
/// the report's metadata, its last (else first user) preview, and no
/// branch count for a catalog-only report, which has no tree.
pub fn persisted_session_summary(id: String, project_id: Option<&str>, report: &ScanReport, catalog_only: bool) -> (r: SessionSummary)
    ensures
        r.id@ == id@,
        opt_view(r.project_id) == crate::api::opt_str_view(project_id),
        (r.title@, r.title_source) == title_spec(opt_view(report.session_name), opt_view(report.first_user_preview), id@),
        opt_view(r.created_at) == opt_view(report.created_at),
        opt_view(r.updated_at) == opt_view(report.updated_at),
        opt_view(r.preview) == (if report.last_message_preview is Some {
            opt_view(report.last_message_preview)
        } else {
            opt_view(report.first_user_preview)
        }),
        r.entry_count == report.entry_count,
        r.branch_count == (if catalog_only { None } else { Some(report.branch_count) }),
        r.parse_state == report.parse_state,
        opt_view(r.model_ref) == opt_view(report.model_ref),
{
    let (title, title_source) = title_from_report(report, id.as_str());
    SessionSummary {
        id,
        project_id: match project_id {
            Some(p) => Some(p.to_owned()),
            None => None,
        },
        title,
        title_source,
        created_at: clone_opt(&report.created_at),
        updated_at: clone_opt(&report.updated_at),
        preview: match &report.last_message_preview {
            Some(last) => Some(last.clone()),
            None => clone_opt(&report.first_user_preview),
        },
        entry_count: report.entry_count,
        branch_count: if catalog_only { None } else { Some(report.branch_count) },
        parse_state: report.parse_state,
        model_ref: clone_opt(&report.model_ref),
    }
}

/// Stored evidence usable to skip a full parse: its identity must read
/// back, its length and stamp be non-negative, its format current, and its
/// digest 64 hexadecimal digits. Anything else is legacy and omitted.
pub open spec fn catalog_row_usable(identity: Seq<char>, length: i64, modified_stamp: i64, digest: Seq<char>, parser_version: i64) -> bool {
    &&& identity_from_text(identity) is Some
    &&& length >= 0
    &&& modified_stamp >= 0
    &&& parser_version == DISCOVERY_FINGERPRINT_PARSER_VERSION
    &&& sha256_hex_shape(digest)
}

pub fn catalog_fingerprint_from_row(
    session_id: String,
    path: String,
    identity: &str,
    length: i64,
    modified_stamp: i64,
    continuity_digest: String,
    parser_version: i64,
) -> (r: Option<CatalogSourceFingerprint>)
    ensures
        catalog_row_usable(identity@, length, modified_stamp, continuity_digest@, parser_version) ==> (r matches Some(f) && {
            &&& f.session_id@ == session_id@
            &&& f.path@ == path@
            &&& Some(f.fingerprint.identity) == identity_from_text(identity@)
            &&& f.fingerprint.length == length
            &&& f.fingerprint.modified_stamp == Some(modified_stamp)
            &&& f.fingerprint.continuity_digest@ == continuity_digest@
            &&& f.fingerprint.parser_version == parser_version
        }),
        !catalog_row_usable(identity@, length, modified_stamp, continuity_digest@, parser_version) ==> r is None,
{
    let identity = match PlatformFileIdentity::from_storage(identity) {
        Some(i) => i,
        None => return None,
    };
    if length < 0 || modified_stamp < 0 || parser_version != DISCOVERY_FINGERPRINT_PARSER_VERSION
        || !is_sha256_hex(continuity_digest.as_str()) {
        return None;
    }
    Some(CatalogSourceFingerprint {
        session_id,
        path,
        fingerprint: SourceFingerprint {
            identity,
            length: length as u64,
            modified_stamp: Some(modified_stamp),
            continuity_digest,
            parser_version,
        },
    })
}

/// An indexed session's bound file, from its stored path, identity and
/// revision; no row gives `None`, and a row without an identity is refused.
pub fn indexed_session_file(stored: Option<(String, Option<String>, String)>) -> (r: Result<Option<HostSessionFile>, IndexError>)
    ensures
        match stored {
            None => r matches Ok(None),
            Some((_, None, _)) => r == Err::<Option<HostSessionFile>, IndexError>(IndexError::SessionIdentityUnavailable),
            Some((path, Some(identity), revision)) => if identity_from_text(identity@) is Some && revision@.len() > 0 {
                r matches Ok(Some(f)) && f@ == (crate::host_file::HostSessionFileView {
                    path: path@,
                    identity: identity_from_text(identity@),
                    revision: Some(revision@),
                    limit: None,
                })
            } else {
                r == Err::<Option<HostSessionFile>, IndexError>(IndexError::SessionIdentityUnavailable)
            },
        },
{
    match stored {
        None => Ok(None),
        Some((path, Some(identity), revision)) => {
            let f = HostSessionFile::from_stored(path, identity, revision)?;
            Ok(Some(f))
        },
        Some((_, None, _)) => Err(IndexError::SessionIdentityUnavailable),
    }
}

} // verus!
