//! Lexical redaction of filesystem paths in display text.
//!
//! Known project prefixes become `<workspace>`; any other absolute path
//! (POSIX, drive-letter or UNC) keeps only its leaf as
//! `<external-path>/leaf`. Positions are character positions: a byte match
//! of valid UTF-8 inside valid UTF-8 always starts on a character boundary,
//! so this is the same as working on bytes.
use vstd::prelude::*;
use crate::text::{str_chars, string_from_chars, string_push, push_str, utf8_len, is_whitespace, is_ascii_alnum, is_ascii_alpha, is_whitespace_char, is_ascii_alnum_char, is_ascii_alpha_char};

verus! {

/// A character that continues a word: ASCII alphanumeric, `_` or `-`.
pub open spec fn is_word_char(c: char) -> bool {
    is_ascii_alnum_char(c) || c == '_' || c == '-'
}

fn word_char(c: char) -> (r: bool)
    ensures
        r == is_word_char(c),
{
    is_ascii_alnum(c) || c == '_' || c == '-'
}

/// `pat` occurs in `v` at position `i`.
pub open spec fn occurs_at(v: Seq<char>, pat: Seq<char>, i: int) -> bool {
    0 <= i && i + pat.len() <= v.len() && v.subrange(i, i + pat.len()) == pat
}

/// First position at or after `from` where `pat` occurs.
pub open spec fn find_from(v: Seq<char>, pat: Seq<char>, from: int) -> Option<int>
    decreases v.len() + 1 - from,
{
    if from < 0 || from + pat.len() > v.len() {
        None
    } else if occurs_at(v, pat, from) {
        Some(from)
    } else {
        find_from(v, pat, from + 1)
    }
}

pub proof fn lemma_find_from_bounds(v: Seq<char>, pat: Seq<char>, from: int)
    ensures
        find_from(v, pat, from) matches Some(i) ==> from <= i && i + pat.len() <= v.len()
            && occurs_at(v, pat, i),
    decreases v.len() + 1 - from,
{
    if !(from < 0 || from + pat.len() > v.len()) && !occurs_at(v, pat, from) {
        lemma_find_from_bounds(v, pat, from + 1);
    }
}

fn matches_at(v: &Vec<char>, pat: &Vec<char>, i: usize) -> (r: bool)
    requires
        i + pat@.len() <= v@.len(),
    ensures
        r == occurs_at(v@, pat@, i as int),
{
    let n = v.len();
    let mut k: usize = 0;
    while k < pat.len()
        invariant
            k <= pat@.len(),
            n == v@.len(),
            i + pat@.len() <= v@.len(),
            forall|j: int| 0 <= j < k ==> v@[i + j] == pat@[j],
        decreases pat.len() - k,
    {
        assert(i + k < v@.len());
        if v[i + k] != pat[k] {
            assert(v@.subrange(i as int, i + pat@.len())[k as int] != pat@[k as int]);
            return false;
        }
        k = k + 1;
    }
    assert(v@.subrange(i as int, i + pat@.len()) =~= pat@);
    true
}

fn find_chars(v: &Vec<char>, pat: &Vec<char>, from: usize) -> (r: Option<usize>)
    ensures
        match r {
            Some(i) => find_from(v@, pat@, from as int) == Some(i as int),
            None => find_from(v@, pat@, from as int) is None,
        },
{
    if pat.len() > v.len() {
        return None;
    }
    let last = v.len() - pat.len();
    if from > last {
        return None;
    }
    let mut i = from;
    loop
        invariant
            from <= i <= last,
            last == v@.len() - pat@.len(),
            pat@.len() <= v@.len(),
            find_from(v@, pat@, from as int) == find_from(v@, pat@, i as int),
        decreases last - i,
    {
        if matches_at(v, pat, i) {
            return Some(i);
        }
        if i == last {
            return None;
        }
        i = i + 1;
    }
}

/// Whether a match of `prefix` ending at `end` and starting at `start` is a
/// whole path: no word character touches it on either side.
pub open spec fn whole_match(v: Seq<char>, start: int, end: int) -> bool {
    &&& (start == 0 || !is_word_char(v[start - 1]))
    &&& (end >= v.len() || !is_word_char(v[end]))
}

/// `v` from `cursor` on, with each whole occurrence of `prefix` replaced by
/// `<workspace>`.
pub open spec fn replace_prefix_from(v: Seq<char>, prefix: Seq<char>, cursor: int) -> Seq<char>
    decreases v.len() + 1 - cursor,
{
    if prefix.len() == 0 || cursor < 0 || cursor > v.len() {
        v.skip(cursor)
    } else {
        match find_from(v, prefix, cursor) {
            None => v.skip(cursor),
            Some(start) => {
                let end = start + prefix.len();
                if start < cursor || end > v.len() {
                    v.skip(cursor)
                } else if whole_match(v, start, end) {
                    v.subrange(cursor, start) + "<workspace>"@ + replace_prefix_from(v, prefix, end)
                } else {
                    v.subrange(cursor, end) + replace_prefix_from(v, prefix, end)
                }
            },
        }
    }
}

pub open spec fn replace_prefix(v: Seq<char>, prefix: Seq<char>) -> Seq<char> {
    if prefix.len() == 0 {
        v
    } else {
        replace_prefix_from(v, prefix, 0)
    }
}

fn push_range(out: &mut String, v: &Vec<char>, from: usize, to: usize)
    requires
        from <= to <= v@.len(),
    ensures
        final(out)@ == old(out)@ + v@.subrange(from as int, to as int),
{
    let mut i = from;
    while i < to
        invariant
            from <= i <= to <= v@.len(),
            out@ == old(out)@ + v@.subrange(from as int, i as int),
        decreases to - i,
    {
        string_push(out, v[i]);
        assert(old(out)@ + v@.subrange(from as int, i + 1) =~= old(out)@ + v@.subrange(
            from as int,
            i as int,
        ) + seq![v@[i as int]]);
        i = i + 1;
    }
}

/// Replaces each whole occurrence of `prefix` in `value` by `<workspace>`.
pub fn replace_known_path_prefix(value: &str, prefix: &str) -> (r: String)
    ensures
        r@ == replace_prefix(value@, prefix@),
{
    let v = str_chars(value);
    let p = str_chars(prefix);
    if p.len() == 0 {
        return string_from_chars(&v);
    }
    let mut out = String::new();
    let mut cursor: usize = 0;
    assert(out@ + replace_prefix_from(v@, p@, 0) =~= replace_prefix_from(v@, p@, 0));
    loop
        invariant
            cursor <= v@.len(),
            p@.len() > 0,
            v@ == value@,
            p@ == prefix@,
            out@ + replace_prefix_from(v@, p@, cursor as int) == replace_prefix_from(v@, p@, 0),
        decreases v.len() + 1 - cursor,
    {
        proof {
            lemma_find_from_bounds(v@, p@, cursor as int);
        }
        match find_chars(&v, &p, cursor) {
            None => {
                push_range(&mut out, &v, cursor, v.len());
                assert(v@.subrange(cursor as int, v@.len() as int) =~= v@.skip(cursor as int));
                return out;
            },
            Some(start) => {
                let end = start + p.len();
                let valid_start = start == 0 || !word_char(v[start - 1]);
                let valid_end = end >= v.len() || !word_char(v[end]);
                if !valid_start || !valid_end {
                    push_range(&mut out, &v, cursor, end);
                } else {
                    push_range(&mut out, &v, cursor, start);
                    push_str(&mut out, "<workspace>");
                }
                assert(out@ + replace_prefix_from(v@, p@, end as int) =~= replace_prefix_from(
                    v@,
                    p@,
                    0,
                ));
                cursor = end;
            },
        }
    }
}

/// Characters that end an absolute path candidate.
pub open spec fn is_path_stop(c: char) -> bool {
    is_whitespace_char(c) || c == '"' || c == '\'' || c == '<' || c == '>' || c == '`' || c == ')'
        || c == ']' || c == '}' || c == ','
}

fn path_stop(c: char) -> (r: bool)
    ensures
        r == is_path_stop(c),
{
    is_whitespace(c) || c == '"' || c == '\'' || c == '<' || c == '>' || c == '`' || c == ')'
        || c == ']' || c == '}' || c == ','
}

/// First position at or after `from` holding a stop character, else the end.
pub open spec fn stop_from(v: Seq<char>, from: int) -> int
    decreases v.len() - from,
{
    if from >= v.len() {
        v.len() as int
    } else if is_path_stop(v[from]) {
        from
    } else {
        stop_from(v, from + 1)
    }
}

pub proof fn lemma_stop_from(v: Seq<char>, from: int)
    requires
        0 <= from <= v.len(),
    ensures
        from <= stop_from(v, from) <= v.len(),
        forall|k: int| from <= k < stop_from(v, from) ==> !is_path_stop(#[trigger] v[k]),
        stop_from(v, from) < v.len() ==> is_path_stop(v[stop_from(v, from)]),
    decreases v.len() - from,
{
    if from < v.len() && !is_path_stop(v[from]) {
        lemma_stop_from(v, from + 1);
    }
}

pub open spec fn ends_with(v: Seq<char>, end: int, pat: Seq<char>) -> bool {
    end - pat.len() >= 0 && occurs_at(v, pat, end - pat.len())
}

/// Whether an absolute path may start at `s`: it is not glued to a word or
/// to an earlier replacement, and it is a drive path (`C:/`, `C:\`), a UNC
/// path (`\\`) or a POSIX path (`/` not followed by `/`).
pub open spec fn path_start_at(v: Seq<char>, s: int) -> bool {
    let c = v[s];
    let drive = is_ascii_alpha_char(c) && s + 1 < v.len() && v[s + 1] == ':' && s + 2 < v.len()
        && (v[s + 2] == '/' || v[s + 2] == '\\');
    let unc = c == '\\' && s + 1 < v.len() && v[s + 1] == '\\';
    let posix = c == '/' && !(s + 1 < v.len() && v[s + 1] == '/');
    &&& !(s > 0 && is_word_char(v[s - 1]))
    &&& !ends_with(v, s, "<workspace>"@)
    &&& !ends_with(v, s, "<external-path>"@)
    &&& (drive || unc || posix)
}

/// A candidate path is reported when it is longer than two bytes and has a
/// separator after its first character.
pub open spec fn path_qualifies(v: Seq<char>, s: int, e: int) -> bool {
    utf8_len(v.subrange(s, e)) > 2 && (v.subrange(s + 1, e).contains('/') || v.subrange(
        s + 1,
        e,
    ).contains('\\'))
}

/// The next absolute path span at or after `from`.
pub open spec fn path_span_from(v: Seq<char>, from: int) -> Option<(int, int)>
    decreases v.len() - from,
{
    if from < 0 || from >= v.len() {
        None
    } else if path_start_at(v, from) && path_qualifies(v, from, stop_from(v, from)) {
        Some((from, stop_from(v, from)))
    } else {
        path_span_from(v, from + 1)
    }
}

pub proof fn lemma_path_span_from(v: Seq<char>, from: int)
    ensures
        path_span_from(v, from) matches Some((s, e)) ==> 0 <= from <= s && s < e && e <= v.len(),
    decreases v.len() - from,
{
    if from < 0 || from >= v.len() {
    } else if path_start_at(v, from) && path_qualifies(v, from, stop_from(v, from)) {
        lemma_stop_from(v, from);
        let e = stop_from(v, from);
        if e == from {
            assert(v.subrange(from, e).len() == 0);
            assert(utf8_len(v.subrange(from, e)) == 0);
        }
    } else {
        lemma_path_span_from(v, from + 1);
    }
}

fn ends_with_chars(v: &Vec<char>, end: usize, pat: &str) -> (r: bool)
    requires
        end <= v@.len(),
    ensures
        r == ends_with(v@, end as int, pat@),
{
    let p = str_chars(pat);
    if p.len() > end {
        return false;
    }
    matches_at(v, &p, end - p.len())
}

fn is_path_start(v: &Vec<char>, s: usize) -> (r: bool)
    requires
        s < v@.len(),
    ensures
        r == path_start_at(v@, s as int),
{
    let c = v[s];
    if s > 0 && word_char(v[s - 1]) {
        return false;
    }
    if ends_with_chars(v, s, "<workspace>") || ends_with_chars(v, s, "<external-path>") {
        return false;
    }
    let n = v.len();
    let drive = is_ascii_alpha(c) && s + 1 < n && v[s + 1] == ':' && s + 2 < n && (v[s + 2] == '/'
        || v[s + 2] == '\\');
    let unc = c == '\\' && s + 1 < n && v[s + 1] == '\\';
    let posix = c == '/' && !(s + 1 < n && v[s + 1] == '/');
    drive || unc || posix
}

fn find_stop(v: &Vec<char>, from: usize) -> (r: usize)
    requires
        from <= v@.len(),
    ensures
        r == stop_from(v@, from as int),
{
    let mut i = from;
    while i < v.len()
        invariant
            from <= i <= v@.len(),
            stop_from(v@, from as int) == stop_from(v@, i as int),
        decreases v.len() - i,
    {
        if path_stop(v[i]) {
            return i;
        }
        i = i + 1;
    }
    i
}

fn range_utf8_len_gt2(v: &Vec<char>, s: usize, e: usize) -> (r: bool)
    requires
        s <= e <= v@.len(),
    ensures
        r == (utf8_len(v@.subrange(s as int, e as int)) > 2),
{
    let mut total: usize = 0;
    let mut i = s;
    while i < e
        invariant
            s <= i <= e <= v@.len(),
            total == utf8_len(v@.subrange(s as int, i as int)),
            total <= 2,
        decreases e - i,
    {
        proof {
            assert(v@.subrange(s as int, i + 1) =~= v@.subrange(s as int, i as int).push(v@[i as int]));
            crate::text::lemma_utf8_len_push(v@.subrange(s as int, i as int), v@[i as int]);
        }
        total = total + crate::text::char_utf8_width(v[i]);
        if total > 2 {
            proof {
                crate::text::lemma_utf8_len_append(v@.subrange(s as int, i + 1), v@.subrange(i + 1, e as int));
                assert(v@.subrange(s as int, i + 1) + v@.subrange(i + 1, e as int) =~= v@.subrange(s as int, e as int));
            }
            return true;
        }
        i = i + 1;
    }
    false
}

fn range_has_separator(v: &Vec<char>, s: usize, e: usize) -> (r: bool)
    requires
        s <= e <= v@.len(),
    ensures
        r == (v@.subrange(s as int, e as int).contains('/') || v@.subrange(s as int, e as int).contains('\\')),
{
    let mut i = s;
    while i < e
        invariant
            s <= i <= e <= v@.len(),
            forall|k: int| s <= k < i ==> v@[k] != '/' && v@[k] != '\\',
        decreases e - i,
    {
        if v[i] == '/' || v[i] == '\\' {
            assert(v@.subrange(s as int, e as int)[i - s] == v@[i as int]);
            return true;
        }
        i = i + 1;
    }
    assert forall|k: int| 0 <= k < e - s implies v@.subrange(s as int, e as int)[k] != '/' && v@.subrange(s as int, e as int)[k] != '\\' by {
        assert(v@.subrange(s as int, e as int)[k] == v@[s + k]);
    }
    false
}

fn next_absolute_path_span(v: &Vec<char>, from: usize) -> (r: Option<(usize, usize)>)
    requires
        from <= v@.len(),
    ensures
        match r {
            Some((s, e)) => path_span_from(v@, from as int) == Some((s as int, e as int)),
            None => path_span_from(v@, from as int) is None,
        },
{
    let mut i = from;
    while i < v.len()
        invariant
            from <= i <= v@.len(),
            path_span_from(v@, from as int) == path_span_from(v@, i as int),
        decreases v.len() - i,
    {
        if is_path_start(v, i) {
            let end = find_stop(v, i);
            proof {
                lemma_stop_from(v@, i as int);
            }
            if end > i && range_utf8_len_gt2(v, i, end) && range_has_separator(v, i + 1, end) {
                return Some((i, end));
            }
            proof {
                if end == i {
                    assert(v@.subrange(i as int, end as int).len() == 0);
                    assert(utf8_len(v@.subrange(i as int, end as int)) == 0);
                }
            }
        }
        i = i + 1;
    }
    None
}

pub open spec fn is_label_trim(c: char) -> bool {
    c == '.' || c == ':' || c == ';' || c == '!' || c == '?'
}

/// `s` without its trailing `.`, `:`, `;`, `!` and `?` characters.
pub open spec fn trim_label_end(s: Seq<char>) -> Seq<char>
    decreases s.len(),
{
    if s.len() > 0 && is_label_trim(s.last()) {
        trim_label_end(s.drop_last())
    } else {
        s
    }
}

/// The text after the last `/` or `\`.
pub open spec fn last_segment(s: Seq<char>) -> Seq<char>
    decreases s.len(),
{
    if s.len() == 0 {
        s
    } else if s.last() == '/' || s.last() == '\\' {
        Seq::empty()
    } else {
        last_segment(s.drop_last()).push(s.last())
    }
}

/// `<external-path>/leaf`, with `path` as the leaf when there is none.
pub open spec fn external_label(path: Seq<char>) -> Seq<char> {
    let leaf = last_segment(trim_label_end(path));
    "<external-path>/"@ + if leaf.len() > 0 {
        leaf
    } else {
        "path"@
    }
}

fn safe_external_path_label(v: &Vec<char>, s: usize, e: usize) -> (r: String)
    requires
        s <= e <= v@.len(),
    ensures
        r@ == external_label(v@.subrange(s as int, e as int)),
{
    let ghost path = v@.subrange(s as int, e as int);
    let mut end = e;
    while end > s && (v[end - 1] == '.' || v[end - 1] == ':' || v[end - 1] == ';' || v[end - 1] == '!' || v[end - 1] == '?')
        invariant
            s <= end <= e <= v@.len(),
            trim_label_end(path) == trim_label_end(v@.subrange(s as int, end as int)),
        decreases end - s,
    {
        assert(v@.subrange(s as int, end as int).drop_last() =~= v@.subrange(s as int, end - 1));
        end = end - 1;
    }
    assert(trim_label_end(v@.subrange(s as int, end as int)) == v@.subrange(s as int, end as int));
    let mut leaf_start = end;
    while leaf_start > s && v[leaf_start - 1] != '/' && v[leaf_start - 1] != '\\'
        invariant
            s <= leaf_start <= end,
            end <= v@.len(),
            last_segment(v@.subrange(s as int, end as int)) == last_segment(
                v@.subrange(s as int, leaf_start as int),
            ) + v@.subrange(leaf_start as int, end as int),
        decreases leaf_start - s,
    {
        let ghost pre = v@.subrange(s as int, leaf_start as int);
        assert(pre.drop_last() =~= v@.subrange(s as int, leaf_start - 1));
        assert(last_segment(pre) == last_segment(pre.drop_last()).push(pre.last()));
        assert(last_segment(pre.drop_last()).push(pre.last()) + v@.subrange(leaf_start as int, end as int)
            =~= last_segment(pre.drop_last()) + v@.subrange(leaf_start - 1, end as int));
        leaf_start = leaf_start - 1;
    }
    assert(last_segment(v@.subrange(s as int, leaf_start as int)) =~= Seq::<char>::empty());
    assert(Seq::<char>::empty() + v@.subrange(leaf_start as int, end as int) =~= v@.subrange(leaf_start as int, end as int));
    let mut out = String::new();
    push_str(&mut out, "<external-path>/");
    if leaf_start < end {
        push_range(&mut out, v, leaf_start, end);
    } else {
        push_str(&mut out, "path");
    }
    assert(Seq::<char>::empty() + "<external-path>/"@ =~= "<external-path>/"@);
    out
}

/// `v` from `cursor` on, with every absolute path replaced by its label.
pub open spec fn redact_paths_from(v: Seq<char>, cursor: int) -> Seq<char>
    decreases v.len() + 1 - cursor,
{
    if cursor < 0 || cursor > v.len() {
        Seq::empty()
    } else {
        match path_span_from(v, cursor) {
            None => v.skip(cursor),
            Some((s, e)) => if cursor <= s && s < e && e <= v.len() {
                v.subrange(cursor, s) + external_label(v.subrange(s, e)) + redact_paths_from(v, e)
            } else {
                v.skip(cursor)
            },
        }
    }
}

pub open spec fn redact_generic_paths(v: Seq<char>) -> Seq<char> {
    redact_paths_from(v, 0)
}

pub fn redact_generic_absolute_paths(value: &str) -> (r: String)
    ensures
        r@ == redact_generic_paths(value@),
{
    let v = str_chars(value);
    let mut out = String::new();
    let mut cursor: usize = 0;
    assert(out@ + redact_paths_from(v@, 0) =~= redact_paths_from(v@, 0));
    loop
        invariant
            cursor <= v@.len(),
            v@ == value@,
            out@ + redact_paths_from(v@, cursor as int) == redact_paths_from(v@, 0),
        decreases v.len() - cursor,
    {
        proof {
            lemma_path_span_from(v@, cursor as int);
        }
        match next_absolute_path_span(&v, cursor) {
            None => {
                push_range(&mut out, &v, cursor, v.len());
                assert(v@.subrange(cursor as int, v@.len() as int) =~= v@.skip(cursor as int));
                return out;
            },
            Some((s, e)) => {
                push_range(&mut out, &v, cursor, s);
                let label = safe_external_path_label(&v, s, e);
                push_str(&mut out, label.as_str());
                assert(out@ + redact_paths_from(v@, e as int) =~= redact_paths_from(v@, 0));
                cursor = e;
            },
        }
    }
}

/// `s` without its trailing `/` and `\` characters.
pub open spec fn trim_separators_end(s: Seq<char>) -> Seq<char>
    decreases s.len(),
{
    if s.len() > 0 && (s.last() == '/' || s.last() == '\\') {
        trim_separators_end(s.drop_last())
    } else {
        s
    }
}

/// `s` with every `from` replaced by `to`.
pub open spec fn replace_char(s: Seq<char>, from: char, to: char) -> Seq<char> {
    s.map_values(|c: char| if c == from { to } else { c })
}

/// The spellings of a project root that are redacted: as given (without
/// trailing separators), with forward slashes and with backslashes, each
/// once.
pub open spec fn path_variants(root: Seq<char>) -> Seq<Seq<char>> {
    let trimmed = trim_separators_end(root);
    let forward = replace_char(trimmed, '\\', '/');
    let backward = replace_char(trimmed, '/', '\\');
    if trimmed.len() == 0 {
        Seq::empty()
    } else {
        let with_forward = if forward != trimmed {
            seq![trimmed, forward]
        } else {
            seq![trimmed]
        };
        if backward != trimmed {
            with_forward.push(backward)
        } else {
            with_forward
        }
    }
}

fn replace_chars(v: &Vec<char>, from: char, to: char) -> (r: Vec<char>)
    ensures
        r@ == replace_char(v@, from, to),
{
    let mut out: Vec<char> = Vec::new();
    let mut i: usize = 0;
    while i < v.len()
        invariant
            i <= v@.len(),
            out@ == replace_char(v@.take(i as int), from, to),
        decreases v.len() - i,
    {
        out.push(if v[i] == from { to } else { v[i] });
        assert(replace_char(v@.take(i + 1), from, to) =~= replace_char(v@.take(i as int), from, to).push(
            if v@[i as int] == from { to } else { v@[i as int] },
        ));
        i = i + 1;
    }
    assert(v@.take(v@.len() as int) =~= v@);
    out
}

fn same_chars(a: &Vec<char>, b: &Vec<char>) -> (r: bool)
    ensures
        r == (a@ == b@),
{
    if a.len() != b.len() {
        return false;
    }
    let mut i: usize = 0;
    while i < a.len()
        invariant
            i <= a@.len(),
            a@.len() == b@.len(),
            forall|k: int| 0 <= k < i ==> a@[k] == b@[k],
        decreases a.len() - i,
    {
        if a[i] != b[i] {
            return false;
        }
        i = i + 1;
    }
    assert(a@ =~= b@);
    true
}

pub fn project_path_variants(root: &str) -> (r: Vec<String>)
    ensures
        r@.map_values(|s: String| s@) == path_variants(root@),
{
    let v = str_chars(root);
    let mut end = v.len();
    assert(v@.take(end as int) =~= v@);
    while end > 0 && (v[end - 1] == '/' || v[end - 1] == '\\')
        invariant
            end <= v@.len(),
            v@ == root@,
            trim_separators_end(root@) == trim_separators_end(v@.take(end as int)),
        decreases end,
    {
        assert(v@.take(end as int).drop_last() =~= v@.take(end - 1));
        end = end - 1;
    }
    let mut trimmed: Vec<char> = Vec::new();
    let mut i: usize = 0;
    while i < end
        invariant
            i <= end <= v@.len(),
            trimmed@ == v@.take(i as int),
        decreases end - i,
    {
        trimmed.push(v[i]);
        assert(v@.take(i + 1) =~= v@.take(i as int).push(v@[i as int]));
        i = i + 1;
    }
    assert(trim_separators_end(v@.take(end as int)) == v@.take(end as int));
    let mut variants: Vec<String> = Vec::new();
    if trimmed.len() == 0 {
        assert(variants@.map_values(|s: String| s@) =~= path_variants(root@));
        return variants;
    }
    let forward = replace_chars(&trimmed, '\\', '/');
    let backward = replace_chars(&trimmed, '/', '\\');
    variants.push(string_from_chars(&trimmed));
    if !same_chars(&forward, &trimmed) {
        variants.push(string_from_chars(&forward));
    }
    if !same_chars(&backward, &trimmed) {
        variants.push(string_from_chars(&backward));
    }
    assert(variants@.map_values(|s: String| s@) =~= path_variants(root@));
    variants
}

/// Known project spellings replaced in turn, then generic absolute paths.
pub open spec fn redact_with_variants(v: Seq<char>, variants: Seq<Seq<char>>) -> Seq<char>
    decreases variants.len(),
{
    if variants.len() == 0 {
        redact_generic_paths(v)
    } else {
        redact_with_variants(replace_prefix(v, variants[0]), variants.drop_first())
    }
}

pub open spec fn redact_paths(v: Seq<char>, root: Option<Seq<char>>) -> Seq<char> {
    match root {
        Some(r) => redact_with_variants(v, path_variants(r)),
        None => redact_generic_paths(v),
    }
}

/// Redacts filesystem paths from render-only text.
pub fn redact_display_paths(value: &str, project_root: Option<&str>) -> (r: String)
    ensures
        r@ == redact_paths(value@, crate::json::str_view(project_root)),
{
    let mut redacted = value.to_owned();
    match project_root {
        Some(root) => {
            let variants = project_path_variants(root);
            let ghost vs = variants@.map_values(|s: String| s@);
            let mut i: usize = 0;
            assert(vs.skip(0) =~= vs);
            while i < variants.len()
                invariant
                    i <= variants@.len(),
                    vs == variants@.map_values(|s: String| s@),
                    vs == path_variants(root@),
                    redact_with_variants(value@, vs) == redact_with_variants(
                        redacted@,
                        vs.skip(i as int),
                    ),
                decreases variants.len() - i,
            {
                assert(vs.skip(i as int)[0] == variants@[i as int]@);
                assert(vs.skip(i as int).drop_first() =~= vs.skip(i + 1));
                redacted = replace_known_path_prefix(redacted.as_str(), variants[i].as_str());
                i = i + 1;
            }
            assert(vs.skip(i as int).len() == 0);
        },
        None => {},
    }
    redact_generic_absolute_paths(redacted.as_str())
}

/// Redacts absolute filesystem paths when no project root is known; only a
/// safe leaf label remains of each.
pub fn redact_display_text(value: &str) -> (r: String)
    ensures
        r@ == redact_generic_paths(value@),
{
    redact_display_paths(value, None)
}

// ---------------------------------------------------------------------------
// Nothing that looks like an absolute path survives redaction.

/// An absolute path span of `w` starts at `p`.
pub open spec fn span_at(w: Seq<char>, p: int) -> bool {
    0 <= p < w.len() && path_start_at(w, p) && path_qualifies(w, p, stop_from(w, p))
}

/// A character of the inner part of a replacement marker.
spec fn marker_char(c: char) -> bool {
    is_ascii_alpha_char(c) || c == '-'
}

proof fn lemma_stop_char(c: char)
    ensures
        is_path_stop(c) ==> !is_ascii_alpha_char(c) && c != ':' && c != '/' && c != '\\' && c != '-',
{
}

proof fn lemma_markers()
    ensures
        "<workspace>"@.len() == 11,
        "<external-path>"@.len() == 15,
        "<workspace>"@[0] == '<',
        "<workspace>"@[10] == '>',
        "<external-path>"@[0] == '<',
        "<external-path>"@[14] == '>',
        forall|i: int| 1 <= i < 10 ==> marker_char(#[trigger] "<workspace>"@[i]),
        forall|i: int| 1 <= i < 14 ==> marker_char(#[trigger] "<external-path>"@[i]),
{
    reveal_strlit("<workspace>");
    reveal_strlit("<external-path>");
    assert forall|i: int| 1 <= i < 10 implies marker_char(#[trigger] "<workspace>"@[i]) by {
        let w = "<workspace>"@;
        assert(w =~= seq!['<', 'w', 'o', 'r', 'k', 's', 'p', 'a', 'c', 'e', '>']);
    }
    assert forall|i: int| 1 <= i < 14 implies marker_char(#[trigger] "<external-path>"@[i]) by {
        let w = "<external-path>"@;
        assert(w =~= seq!['<', 'e', 'x', 't', 'e', 'r', 'n', 'a', 'l', '-', 'p', 'a', 't', 'h', '>']);
    }
}

/// Before the first span that `path_span_from` finds, no span starts.
proof fn lemma_no_span_before(v: Seq<char>, from: int, q: int)
    requires
        0 <= from <= q < v.len(),
        match path_span_from(v, from) {
            Some((s, _)) => q < s,
            None => true,
        },
    ensures
        !span_at(v, q),
    decreases q - from,
{
    if from < q {
        lemma_no_span_before(v, from + 1, q);
    }
}

/// A span that `path_span_from` finds starts a path and ends at a stop.
proof fn lemma_span_found(v: Seq<char>, from: int)
    ensures
        path_span_from(v, from) matches Some((s, e)) ==> path_start_at(v, s) && e == stop_from(v, s),
    decreases v.len() - from,
{
    if !(from < 0 || from >= v.len()) && !(path_start_at(v, from) && path_qualifies(
        v,
        from,
        stop_from(v, from),
    )) {
        lemma_span_found(v, from + 1);
    }
}

/// Where `w` holds a copy of `v[c..t]` at `base`, followed by a stop or by
/// its end, a stop search from inside the copy ends at the first stop of
/// `v` or at the end of the copy.
proof fn lemma_stop_copied(v: Seq<char>, w: Seq<char>, base: int, c: int, t: int, q: int)
    requires
        0 <= c <= q <= t <= v.len(),
        0 <= base,
        base + (t - c) <= w.len(),
        forall|k: int| c <= k < t ==> #[trigger] v[k] == w[base + k - c],
        base + (t - c) == w.len() || is_path_stop(w[base + t - c]),
    ensures
        stop_from(w, base + q - c) == base + (if stop_from(v, q) <= t {
            stop_from(v, q)
        } else {
            t
        }) - c,
    decreases t - q,
{
    lemma_stop_from(v, q);
    if q < t {
        assert(v[q] == w[base + q - c]);
        if !is_path_stop(v[q]) {
            lemma_stop_copied(v, w, base, c, t, q + 1);
        }
    }
}

/// A marker that ends at `q` in `v` also ends at the copy of `q` in `w`:
/// a marker cannot reach back over the stop that begins the copy into the
/// span before it.
proof fn lemma_ends_with_copied(
    v: Seq<char>,
    w: Seq<char>,
    base: int,
    c: int,
    t: int,
    prev: int,
    q: int,
    pat: Seq<char>,
)
    requires
        0 <= c <= q < t <= v.len(),
        0 <= base,
        base + (t - c) <= w.len(),
        forall|k: int| c <= k < t ==> #[trigger] v[k] == w[base + k - c],
        pat == "<workspace>"@ || pat == "<external-path>"@,
        c == 0 ==> base == 0,
        c > 0 ==> 0 <= prev < c && path_start_at(v, prev) && stop_from(v, prev) == c,
    ensures
        ends_with(v, q, pat) ==> ends_with(w, base + q - c, pat),
{
    lemma_markers();
    let n = pat.len() as int;
    if ends_with(v, q, pat) {
        assert(v.subrange(q - n, q) == pat);
        if q - n >= c {
            assert forall|k: int| 0 <= k < n implies w.subrange(base + q - c - n, base + q - c)[k]
                == pat[k] by {
                assert(v.subrange(q - n, q)[k] == v[q - n + k]);
                assert(v[q - n + k] == w[base + (q - n + k) - c]);
            }
            assert(w.subrange(base + q - c - n, base + q - c) =~= pat);
        } else {
            lemma_stop_from(v, prev);
            assert(is_path_stop(v[c]));
            if q == c {
                assert(v[c - 1] == v.subrange(q - n, q)[n - 1]);
                assert(!is_path_stop(v[c - 1]));
                assert(false);
            } else {
                let j = c - (q - n);
                assert(v[c] == v.subrange(q - n, q)[j]);
                lemma_stop_char(v[c]);
                assert(j == n - 1);
                assert(v[q - n] == v.subrange(q - n, q)[0]);
                assert(is_path_stop(v[q - n]));
                assert(q - n < prev);
                let i = prev - (q - n);
                assert(v[prev] == v.subrange(q - n, q)[i]);
                assert(v[prev + 1] == v.subrange(q - n, q)[i + 1]);
                assert(marker_char(v[prev]));
                assert(i + 1 == n - 1 || marker_char(v[prev + 1]));
                assert(false);
            }
        }
    }
}

proof fn lemma_separator_copied(
    v: Seq<char>,
    w: Seq<char>,
    base: int,
    c: int,
    t: int,
    p: int,
    m: int,
    q: int,
    sv: int,
    x: char,
)
    requires
        0 <= c <= q < t <= v.len(),
        0 <= base,
        p == base + q - c,
        p < m,
        m - p <= sv - q,
        base + (m - p) + q - c <= base + (t - c),
        sv <= v.len(),
        m <= w.len(),
        forall|k: int| c <= k < t ==> #[trigger] v[k] == w[base + k - c],
    ensures
        w.subrange(p + 1, m).contains(x) ==> v.subrange(q + 1, sv).contains(x),
{
    if w.subrange(p + 1, m).contains(x) {
        let i = choose|i: int| 0 <= i < w.subrange(p + 1, m).len() && #[trigger] w.subrange(p + 1, m)[i] == x;
        assert(v[q + 1 + i] == w[base + (q + 1 + i) - c]);
        assert(v.subrange(q + 1, sv)[i] == x);
    }
}

/// A copy of `v[c..t]` at `base` in `w`, followed by a stop or by the end of
/// both, holds a span start only where `v` does.
proof fn lemma_copied_no_span(
    v: Seq<char>,
    w: Seq<char>,
    base: int,
    c: int,
    t: int,
    prev: int,
    q: int,
)
    requires
        0 <= c <= q < t <= v.len(),
        0 <= base,
        base + (t - c) <= w.len(),
        forall|k: int| c <= k < t ==> #[trigger] v[k] == w[base + k - c],
        base + (t - c) == w.len() || is_path_stop(w[base + t - c]),
        base + (t - c) == w.len() ==> t == v.len(),
        !span_at(v, q),
        c == 0 ==> base == 0,
        c > 0 ==> 0 <= prev < c && path_start_at(v, prev) && stop_from(v, prev) == c,
    ensures
        !span_at(w, base + q - c),
{
    let p = base + q - c;
    let tc = base + (t - c);
    assert(v[q] == w[p]);
    if span_at(w, p) {
        if q == c && c > 0 {
            lemma_stop_from(v, prev);
            lemma_stop_char(v[c]);
            assert(false);
        }
        if q > c {
            assert(v[q - 1] == w[p - 1]);
        }
        lemma_ends_with_copied(v, w, base, c, t, prev, q, "<workspace>"@);
        lemma_ends_with_copied(v, w, base, c, t, prev, q, "<external-path>"@);
        if q + 1 < t {
            assert(v[q + 1] == w[p + 1]);
        }
        if q + 2 < t {
            assert(v[q + 2] == w[p + 2]);
        }
        if tc < w.len() {
            lemma_stop_char(w[tc]);
        }
        lemma_stop_copied(v, w, base, c, t, q);
        lemma_stop_from(v, q);
        lemma_stop_from(w, p);
        let m = stop_from(w, p);
        if q + 1 == t && tc < w.len() {
            assert(m <= p + 1);
            assert(w.subrange(p + 1, m).len() == 0);
            assert(false);
        }
        assert(path_start_at(v, q));
        let sv = stop_from(v, q);
        let mv = if sv <= t { sv } else { t };
        assert(m == base + mv - c);
        assert(w.subrange(p, m) =~= v.subrange(q, mv)) by {
            assert forall|k: int| 0 <= k < m - p implies w.subrange(p, m)[k] == v.subrange(q, mv)[k] by {
                assert(v[q + k] == w[base + (q + k) - c]);
            }
        }
        crate::text::lemma_utf8_len_append(v.subrange(q, mv), v.subrange(mv, sv));
        assert(v.subrange(q, mv) + v.subrange(mv, sv) =~= v.subrange(q, sv));
        assert(utf8_len(v.subrange(q, sv)) > 2);
        lemma_separator_copied(v, w, base, c, t, p, m, q, sv, '/');
        lemma_separator_copied(v, w, base, c, t, p, m, q, sv, '\\');
        assert(path_qualifies(v, q, sv));
        assert(false);
    }
}

proof fn lemma_last_segment_has_no_separator(s: Seq<char>)
    ensures
        forall|i: int|
            0 <= i < last_segment(s).len() ==> #[trigger] last_segment(s)[i] != '/'
                && last_segment(s)[i] != '\\',
    decreases s.len(),
{
    if s.len() > 0 && !(s.last() == '/' || s.last() == '\\') {
        lemma_last_segment_has_no_separator(s.drop_last());
        let prior = last_segment(s.drop_last());
        assert forall|i: int| 0 <= i < last_segment(s).len() implies #[trigger] last_segment(s)[i]
            != '/' && last_segment(s)[i] != '\\' by {
            if i < prior.len() {
                assert(last_segment(s)[i] == prior[i]);
            }
        }
    }
}

/// A label placed at `base` in `w`, followed by a stop or by the end of
/// `w`, holds no span start.
proof fn lemma_label_no_span(w: Seq<char>, base: int, path: Seq<char>, p: int)
    requires
        0 <= base,
        base + external_label(path).len() <= w.len(),
        w.subrange(base, base + external_label(path).len()) == external_label(path),
        base + external_label(path).len() == w.len() || is_path_stop(
            w[base + external_label(path).len()],
        ),
        base <= p < base + external_label(path).len(),
    ensures
        !span_at(w, p),
{
    let label = external_label(path);
    let n = label.len() as int;
    let trimmed_leaf = last_segment(trim_label_end(path));
    let leaf = if trimmed_leaf.len() > 0 {
        trimmed_leaf
    } else {
        "path"@
    };
    reveal_strlit("<external-path>/");
    reveal_strlit("path");
    lemma_markers();
    lemma_last_segment_has_no_separator(trim_label_end(path));
    let head = seq!['<', 'e', 'x', 't', 'e', 'r', 'n', 'a', 'l', '-', 'p', 'a', 't', 'h', '>', '/'];
    assert("<external-path>/"@ =~= head);
    assert("path"@ =~= seq!['p', 'a', 't', 'h']);
    assert(label =~= head + leaf);
    assert(forall|k: int| 0 <= k < leaf.len() ==> #[trigger] leaf[k] != '/' && leaf[k] != '\\');
    let i = p - base;
    assert(w[p] == label[i]);
    if i + 1 < n {
        assert(w[p + 1] == label[i + 1]);
    }
    if i + 2 < n {
        assert(w[p + 2] == label[i + 2]);
    }
    if base + n < w.len() {
        lemma_stop_char(w[base + n]);
    }
    if i == 15 {
        reveal_strlit("<external-path>");
        assert("<external-path>"@ =~= head.take(15));
        assert(w.subrange(p - 15, p) =~= "<external-path>"@) by {
            assert forall|k: int| 0 <= k < 15 implies w.subrange(p - 15, p)[k] == "<external-path>"@[k] by {
                assert(w[base + k] == label[k]);
                assert(label[k] == head[k]);
            }
        }
        assert(ends_with(w, p, "<external-path>"@));
    }
    if i >= 16 {
        assert(label[i] == leaf[i - 16]);
        if i + 1 < n {
            assert(label[i + 1] == leaf[i + 1 - 16]);
        }
        if i + 2 < n {
            assert(label[i + 2] == leaf[i + 2 - 16]);
        }
    }
}

/// What is left to redact begins with the stop that ended the last span,
/// or is empty.
proof fn lemma_redacted_head(v: Seq<char>, c: int)
    requires
        0 <= c <= v.len(),
        c < v.len() ==> is_path_stop(v[c]),
    ensures
        c == v.len() ==> redact_paths_from(v, c).len() == 0,
        c < v.len() ==> redact_paths_from(v, c).len() > 0 && is_path_stop(redact_paths_from(v, c)[0]),
{
    lemma_path_span_from(v, c);
    lemma_span_found(v, c);
    if c < v.len() {
        lemma_stop_char(v[c]);
        match path_span_from(v, c) {
            Some((s, e)) => {
                assert(s != c);
                let label = external_label(v.subrange(s, e));
                assert(redact_paths_from(v, c) == v.subrange(c, s) + label + redact_paths_from(v, e));
                assert(redact_paths_from(v, c)[0] == v.subrange(c, s)[0]);
            },
            None => {},
        }
    }
}

/// The output from `c` on, placed at `base` in the whole output `w`, holds
/// no span start.
proof fn lemma_redacted_from_no_span(
    v: Seq<char>,
    w: Seq<char>,
    c: int,
    base: int,
    prev: int,
    p: int,
)
    requires
        0 <= c <= v.len(),
        0 <= base,
        w.len() == base + redact_paths_from(v, c).len(),
        w.subrange(base, w.len() as int) == redact_paths_from(v, c),
        c == 0 ==> base == 0,
        c > 0 ==> 0 <= prev < c && path_start_at(v, prev) && stop_from(v, prev) == c,
        base <= p < w.len(),
    ensures
        !span_at(w, p),
    decreases v.len() + 1 - c,
{
    let o = redact_paths_from(v, c);
    lemma_path_span_from(v, c);
    lemma_span_found(v, c);
    match path_span_from(v, c) {
        None => {
            assert(o == v.skip(c));
            let q = c + (p - base);
            assert forall|k: int| c <= k < v.len() implies #[trigger] v[k] == w[base + k - c] by {
                assert(w.subrange(base, w.len() as int)[k - c] == o[k - c]);
            }
            lemma_no_span_before(v, c, q);
            lemma_copied_no_span(v, w, base, c, v.len() as int, prev, q);
        },
        Some((s, e)) => {
            let label = external_label(v.subrange(s, e));
            let r = redact_paths_from(v, e);
            assert(o == v.subrange(c, s) + label + r);
            let ls = base + (s - c);
            let le = ls + label.len();
            assert(label.len() > 0) by {
                reveal_strlit("<external-path>/");
            }
            assert forall|k: int| c <= k < s implies #[trigger] v[k] == w[base + k - c] by {
                assert(w.subrange(base, w.len() as int)[k - c] == o[k - c]);
            }
            assert(w.subrange(ls, le) =~= label) by {
                assert forall|k: int| 0 <= k < label.len() implies w.subrange(ls, le)[k] == label[k] by {
                    assert(w.subrange(base, w.len() as int)[(s - c) + k] == o[(s - c) + k]);
                }
            }
            assert(w.subrange(le, w.len() as int) =~= r) by {
                assert forall|k: int| 0 <= k < r.len() implies w.subrange(le, w.len() as int)[k] == r[k] by {
                    assert(w.subrange(base, w.len() as int)[(le - base) + k] == o[(le - base) + k]);
                }
            }
            lemma_stop_from(v, s);
            lemma_redacted_head(v, e);
            if p < ls {
                let q = c + (p - base);
                lemma_no_span_before(v, c, q);
                reveal_strlit("<external-path>/");
                assert(w[ls] == label[0]);
                lemma_copied_no_span(v, w, base, c, s, prev, q);
            } else if p < le {
                if le < w.len() {
                    assert(w[le] == r[0]);
                }
                lemma_label_no_span(w, ls, v.subrange(s, e), p);
            } else {
                lemma_redacted_from_no_span(v, w, e, le, s, p);
            }
        },
    }
}

proof fn lemma_no_span_from(w: Seq<char>, from: int)
    requires
        0 <= from,
        forall|p: int| from <= p < w.len() ==> !#[trigger] span_at(w, p),
    ensures
        path_span_from(w, from) is None,
    decreases w.len() - from,
{
    if from < w.len() {
        assert(!span_at(w, from));
        lemma_no_span_from(w, from + 1);
    }
}

/// Redaction leaves no absolute path: each one became a label that is never
/// read as the start of another path, and the text around the labels holds
/// none.
pub proof fn lemma_redaction_leaves_no_path(v: Seq<char>)
    ensures
        path_span_from(redact_generic_paths(v), 0) is None,
{
    let w = redact_generic_paths(v);
    assert(w.subrange(0, w.len() as int) =~= w);
    assert forall|p: int| 0 <= p < w.len() implies !#[trigger] span_at(w, p) by {
        lemma_redacted_from_no_span(v, w, 0, 0, 0, p);
    }
    lemma_no_span_from(w, 0);
}

/// The same holds when a project root is known: its spellings become
/// `<workspace>` first, and every other absolute path is then labelled.
pub proof fn lemma_display_redaction_leaves_no_path(v: Seq<char>, root: Option<Seq<char>>)
    ensures
        path_span_from(redact_paths(v, root), 0) is None,
{
    match root {
        Some(r) => lemma_variants_leave_no_path(v, path_variants(r)),
        None => lemma_redaction_leaves_no_path(v),
    }
}

proof fn lemma_variants_leave_no_path(v: Seq<char>, variants: Seq<Seq<char>>)
    ensures
        path_span_from(redact_with_variants(v, variants), 0) is None,
    decreases variants.len(),
{
    if variants.len() == 0 {
        lemma_redaction_leaves_no_path(v);
    } else {
        lemma_variants_leave_no_path(replace_prefix(v, variants[0]), variants.drop_first());
    }
}

/// Redacting redacted text changes nothing.
pub proof fn lemma_redaction_idempotent(v: Seq<char>)
    ensures
        redact_generic_paths(redact_generic_paths(v)) == redact_generic_paths(v),
{
    let w = redact_generic_paths(v);
    lemma_redaction_leaves_no_path(v);
    assert(w.skip(0) =~= w);
}

} // verus!
