//! Bounded display text for the render projection.
//!
//! Display text drops control characters other than newline and tab, is cut
//! at a byte limit, and ends in `…` when it was cut. A NUL character marks,
//! internally, text whose source was already truncated.
use vstd::prelude::*;
use crate::json::{JsonValue, fields_get, jstr, fields_lookup, as_str, or_else, deref, first_some, str_view};
use crate::report::{GenericBlockKind, GenericTimelineBlock, BlockView, blocks_view};
use crate::text::{utf8_len, utf8_width, is_control_char, str_chars, string_from_chars, char_utf8_width, is_control, str_eq, lemma_utf8_len_push, opt_view};

verus! {

/// Bytes kept of user and assistant text.
pub const DISPLAY_MESSAGE_LIMIT: usize = 65536;

/// Bytes kept of tool output, reasoning and other detail.
pub const DISPLAY_DETAIL_LIMIT: usize = 16384;

/// Bytes of display text kept over a whole timeline.
pub const DISPLAY_TOTAL_LIMIT: usize = 4194304;

/// Internal marker of text whose source was truncated.
pub const DISPLAY_TRUNCATION_SENTINEL: char = '\0';

pub const TRUNCATION_MARKER: char = '…';

/// Characters dropped from display text.
pub open spec fn is_hidden_char(c: char) -> bool {
    is_control_char(c) && c != '\n' && c != '\t'
}

/// Appending `v` to `out` character by character, skipping hidden
/// characters, until the next one would exceed `limit` bytes; the flag says
/// whether it stopped early.
pub open spec fn append_bounded(out: Seq<char>, v: Seq<char>, limit: nat) -> (Seq<char>, bool)
    decreases v.len(),
{
    if v.len() == 0 {
        (out, false)
    } else {
        let (o, stopped) = append_bounded(out, v.drop_last(), limit);
        let c = v.last();
        if stopped || is_hidden_char(c) {
            (o, stopped)
        } else if utf8_len(o) + utf8_width(c) > limit {
            (o, true)
        } else {
            (o.push(c), false)
        }
    }
}

pub proof fn lemma_append_bounded(out: Seq<char>, v: Seq<char>, limit: nat)
    requires
        utf8_len(out) <= limit,
    ensures
        utf8_len(append_bounded(out, v, limit).0) <= limit,
    decreases v.len(),
{
    if v.len() > 0 {
        lemma_append_bounded(out, v.drop_last(), limit);
        let (o, stopped) = append_bounded(out, v.drop_last(), limit);
        lemma_utf8_len_push(o, v.last());
    }
}

/// Appends `value` within `limit` bytes; `out_len` tracks the byte length of
/// `out`. Returns whether the text was cut.
pub fn append_bounded_text(out: &mut Vec<char>, out_len: &mut usize, value: &str, limit: usize) -> (r: bool)
    requires
        *old(out_len) == utf8_len(old(out)@),
        utf8_len(old(out)@) <= limit,
    ensures
        (final(out)@, r) == append_bounded(old(out)@, value@, limit as nat),
        *final(out_len) == utf8_len(final(out)@),
        utf8_len(final(out)@) <= limit,
{
    let chars = str_chars(value);
    let mut i: usize = 0;
    while i < chars.len()
        invariant
            i <= chars@.len(),
            chars@ == value@,
            (out@, false) == append_bounded(old(out)@, chars@.take(i as int), limit as nat),
            *out_len == utf8_len(out@),
            utf8_len(out@) <= limit,
        decreases chars.len() - i,
    {
        assert(chars@.take(i + 1).drop_last() =~= chars@.take(i as int));
        let c = chars[i];
        if is_control(c) && c != '\n' && c != '\t' {
            i = i + 1;
            continue;
        }
        let w = char_utf8_width(c);
        if w > limit || *out_len > limit - w {
            proof {
                lemma_append_bounded_stops(old(out)@, chars@, i as int, limit as nat);
            }
            return true;
        }
        proof {
            lemma_utf8_len_push(out@, c);
        }
        out.push(c);
        *out_len = *out_len + w;
        i = i + 1;
    }
    assert(chars@.take(chars@.len() as int) =~= chars@);
    false
}

/// Once appending stops, later characters change nothing.
pub proof fn lemma_append_bounded_stops(out: Seq<char>, v: Seq<char>, i: int, limit: nat)
    requires
        0 <= i < v.len(),
        !append_bounded(out, v.take(i), limit).1,
        !is_hidden_char(v[i]),
        utf8_len(append_bounded(out, v.take(i), limit).0) + utf8_width(v[i]) > limit,
    ensures
        append_bounded(out, v, limit) == (append_bounded(out, v.take(i), limit).0, true),
    decreases v.len(),
{
    if i == v.len() - 1 {
        assert(v.drop_last() =~= v.take(i));
    } else {
        assert(v.drop_last().take(i) =~= v.take(i));
        lemma_append_bounded_stops(out, v.drop_last(), i, limit);
    }
}

/// Whether `s` ends with `c`.
pub open spec fn ends_with_char(s: Seq<char>, c: char) -> bool {
    s.len() > 0 && s.last() == c
}

/// `out` shortened from the end until the marker fits within `limit`.
pub open spec fn shrink_for_marker(out: Seq<char>, limit: nat) -> Option<Seq<char>>
    decreases out.len(),
{
    if utf8_len(out) + 3 <= limit {
        Some(out)
    } else if out.len() == 0 {
        None
    } else {
        shrink_for_marker(out.drop_last(), limit)
    }
}

/// `out` ending in `…` within `limit` bytes, when there is room for it.
pub open spec fn with_truncation_marker(out: Seq<char>, limit: nat) -> Seq<char> {
    if ends_with_char(out, '…') {
        out
    } else {
        match shrink_for_marker(out, limit) {
            Some(o) => o.push('…'),
            None => Seq::empty(),
        }
    }
}

pub proof fn lemma_shrink_for_marker(out: Seq<char>, limit: nat)
    ensures
        shrink_for_marker(out, limit) matches Some(o) ==> utf8_len(o) + 3 <= limit,
    decreases out.len(),
{
    if !(utf8_len(out) + 3 <= limit) && out.len() > 0 {
        lemma_shrink_for_marker(out.drop_last(), limit);
    }
}

pub fn append_truncation_marker(out: &mut Vec<char>, out_len: &mut usize, limit: usize)
    requires
        *old(out_len) == utf8_len(old(out)@),
    ensures
        final(out)@ == with_truncation_marker(old(out)@, limit as nat),
        *final(out_len) == utf8_len(final(out)@),
{
    if out.len() > 0 && out[out.len() - 1] == '…' {
        return;
    }
    loop
        invariant
            *out_len == utf8_len(out@),
            shrink_for_marker(old(out)@, limit as nat) == shrink_for_marker(out@, limit as nat),
            !ends_with_char(old(out)@, '…'),
        ensures
            *out_len == utf8_len(out@),
            utf8_len(out@) + 3 <= limit,
            shrink_for_marker(old(out)@, limit as nat) == Some(out@),
            !ends_with_char(old(out)@, '…'),
        decreases out@.len(),
    {
        if *out_len <= limit && limit - *out_len >= 3 {
            break;
        }
        if out.len() == 0 {
            proof {
                assert(shrink_for_marker(out@, limit as nat) is None);
            }
            return;
        }
        let ghost before = out@;
        let c = out.pop().unwrap();
        proof {
            assert(before == out@.push(c));
            assert(before.drop_last() =~= out@);
            lemma_utf8_len_push(out@, c);
        }
        *out_len = *out_len - char_utf8_width(c);
    }
    proof {
        lemma_utf8_len_push(out@, '…');
    }
    out.push('…');
    *out_len = *out_len + 3;
}

/// The display text and whether it was cut: hidden characters dropped,
/// bounded to `limit` bytes, with `…` when cut (or when the source already
/// carried the truncation marker). Empty text is no text.
pub open spec fn bounded_display_spec(v: Option<Seq<char>>, limit: nat) -> (Option<Seq<char>>, bool) {
    match v {
        None => (None, false),
        Some(s) => {
            let source_truncated = ends_with_char(s, '\0');
            let (o, cut) = append_bounded(Seq::empty(), s, limit);
            let truncated = cut || source_truncated;
            let out = if truncated {
                with_truncation_marker(o, limit)
            } else {
                o
            };
            if out.len() == 0 {
                (None, truncated || s.len() > 0)
            } else {
                (Some(out), truncated)
            }
        },
    }
}

pub fn bounded_display(value: Option<&str>, limit: usize) -> (r: (Option<String>, bool))
    ensures
        (opt_view(r.0), r.1) == bounded_display_spec(str_view(value), limit as nat),
{
    let value = match value {
        Some(v) => v,
        None => {
            return (None, false);
        },
    };
    let chars = str_chars(value);
    let source_was_truncated = chars.len() > 0 && chars[chars.len() - 1] == '\0';
    let mut out: Vec<char> = Vec::new();
    let mut out_len: usize = 0;
    let cut = append_bounded_text(&mut out, &mut out_len, value, limit);
    let truncated = cut || source_was_truncated;
    if truncated {
        append_truncation_marker(&mut out, &mut out_len, limit);
    }
    if out.len() == 0 {
        (None, truncated || chars.len() > 0)
    } else {
        (Some(string_from_chars(&out)), truncated)
    }
}

/// `value` with the internal truncation marker appended when the source said
/// it was truncated.
pub open spec fn mark_truncated_spec(value: Option<Seq<char>>, truncated: bool) -> Option<Seq<char>> {
    if !truncated {
        value
    } else {
        match value {
            Some(v) => Some(v.push('\0')),
            None => Some(seq!['\0']),
        }
    }
}

pub fn mark_source_truncated(value: Option<String>, truncated: bool) -> (r: Option<String>)
    ensures
        opt_view(r) == mark_truncated_spec(opt_view(value), truncated),
{
    if !truncated {
        return value;
    }
    let mut v = match value {
        Some(v) => v,
        None => String::new(),
    };
    crate::text::string_push(&mut v, '\0');
    proof {
        assert(Seq::<char>::empty().push('\0') =~= seq!['\0']);
    }
    Some(v)
}

/// The byte limit of a block kind's display text.
pub open spec fn display_limit_spec(kind: GenericBlockKind) -> nat {
    match kind {
        GenericBlockKind::User | GenericBlockKind::Assistant => DISPLAY_MESSAGE_LIMIT as nat,
        _ => DISPLAY_DETAIL_LIMIT as nat,
    }
}

pub fn display_limit(kind: GenericBlockKind) -> (r: usize)
    ensures
        r == display_limit_spec(kind),
{
    match kind {
        GenericBlockKind::User | GenericBlockKind::Assistant => DISPLAY_MESSAGE_LIMIT,
        GenericBlockKind::Thinking | GenericBlockKind::Tool => DISPLAY_DETAIL_LIMIT,
        GenericBlockKind::Custom | GenericBlockKind::Compaction | GenericBlockKind::Unknown => {
            DISPLAY_DETAIL_LIMIT
        },
    }
}

/// ASCII lower case of a character (`char::to_ascii_lowercase`).
pub open spec fn ascii_lower(c: char) -> char {
    if 'A' <= c && c <= 'Z' {
        ((c as u32) + 32) as char
    } else {
        c
    }
}

pub fn ascii_lower_char(c: char) -> (r: char)
    ensures
        r == ascii_lower(c),
{
    if 'A' <= c && c <= 'Z' {
        let u = (c as u32) + 32;
        proof {
            assert(u <= 0x7a);
        }
        char_from_ascii(u)
    } else {
        c
    }
}

fn char_from_ascii(u: u32) -> (c: char)
    requires
        u < 128,
    ensures
        c as u32 == u,
{
    let b = u as u8;
    b as char
}

/// The allowlisted title of a tool: well-known tool names map to a fixed
/// label; anything else is generic activity.
pub open spec fn tool_title_spec(name: Option<Seq<char>>) -> Seq<char> {
    let n = match name {
        Some(s) => s.map_values(|c: char| ascii_lower(c)),
        None => "tool"@,
    };
    if n == "bash"@ {
        "bash"@
    } else if n == "read"@ || n == "read_file"@ {
        "Read file"@
    } else if n == "write"@ || n == "write_file"@ {
        "Write file"@
    } else if n == "edit"@ || n == "edit_file"@ {
        "Edit file"@
    } else if n == "grep"@ || n == "search"@ {
        "Search workspace"@
    } else {
        "Tool activity"@
    }
}

pub fn tool_title(tool_name: Option<&str>) -> (r: Option<String>)
    ensures
        opt_view(r) == Some(tool_title_spec(str_view(tool_name))),
{
    let name = match tool_name {
        Some(n) => n,
        None => "Tool",
    };
    let chars = str_chars(name);
    let mut lower: Vec<char> = Vec::new();
    let mut i: usize = 0;
    while i < chars.len()
        invariant
            i <= chars@.len(),
            lower@ == chars@.take(i as int).map_values(|c: char| ascii_lower(c)),
        decreases chars.len() - i,
    {
        lower.push(ascii_lower_char(chars[i]));
        assert(chars@.take(i + 1).map_values(|c: char| ascii_lower(c)) =~= chars@.take(i as int).map_values(
            |c: char| ascii_lower(c),
        ).push(ascii_lower(chars@[i as int])));
        i = i + 1;
    }
    assert(chars@.take(chars@.len() as int) =~= chars@);
    let normalized = string_from_chars(&lower);
    let n = normalized.as_str();
    proof {
        if tool_name is None {
            reveal_strlit("Tool");
            reveal_strlit("tool");
            assert("Tool"@.map_values(|c: char| ascii_lower(c)) =~= "tool"@);
        }
    }
    let title = if str_eq(n, "bash") {
        "bash"
    } else if str_eq(n, "read") || str_eq(n, "read_file") {
        "Read file"
    } else if str_eq(n, "write") || str_eq(n, "write_file") {
        "Write file"
    } else if str_eq(n, "edit") || str_eq(n, "edit_file") {
        "Edit file"
    } else if str_eq(n, "grep") || str_eq(n, "search") {
        "Search workspace"
    } else {
        "Tool activity"
    };
    Some(title.to_owned())
}


/// The string of the first of `text`, `content` and `output` that is present.
pub open spec fn first_text_member(f: Seq<(String, JsonValue)>) -> Option<Seq<char>> {
    jstr(first_some(fields_get(f, "text"@), first_some(fields_get(f, "content"@), fields_get(f, "output"@))))
}

pub fn first_text_member_ref<'a>(f: &'a Vec<(String, JsonValue)>) -> (r: Option<&'a str>)
    ensures
        str_view(r) == first_text_member(f@),
{
    as_str(or_else(fields_lookup(f, "text"), or_else(fields_lookup(f, "content"), fields_lookup(f, "output"))))
}

/// Array elements that contribute display text.
pub open spec fn is_display_item_type(t: Option<Seq<char>>) -> bool {
    t == Some("text"@) || t == Some("markdown"@) || t == Some("toolResult"@) || t == Some("bashExecution"@)
}

/// The display text of one array element, if it has one.
pub open spec fn display_item_text(item: JsonValue) -> Option<Seq<char>> {
    match item {
        JsonValue::Object(f) => if is_display_item_type(jstr(fields_get(f@, "type"@))) {
            first_text_member(f@)
        } else {
            None
        },
        _ => None,
    }
}

/// Joining the display texts of array elements with newlines, within the
/// message limit: (text, cut, no text yet).
pub open spec fn display_items(items: Seq<JsonValue>) -> (Seq<char>, bool, bool)
    decreases items.len(),
{
    if items.len() == 0 {
        (Seq::empty(), false, true)
    } else {
        let (out, cut, first) = display_items(items.drop_last());
        if cut {
            (out, cut, first)
        } else {
            match display_item_text(items.last()) {
                None => (out, cut, first),
                Some(t) => {
                    let (o1, c1) = if first {
                        (out, false)
                    } else {
                        append_bounded(out, "\n"@, DISPLAY_MESSAGE_LIMIT as nat)
                    };
                    if c1 {
                        (o1, true, first)
                    } else {
                        let (o2, c2) = append_bounded(o1, t, DISPLAY_MESSAGE_LIMIT as nat);
                        (o2, c2, false)
                    }
                },
            }
        }
    }
}

pub proof fn lemma_display_items_bounded(items: Seq<JsonValue>)
    ensures
        utf8_len(display_items(items).0) <= DISPLAY_MESSAGE_LIMIT,
    decreases items.len(),
{
    if items.len() > 0 {
        lemma_display_items_bounded(items.drop_last());
        let (out, cut, first) = display_items(items.drop_last());
        lemma_append_bounded(out, "\n"@, DISPLAY_MESSAGE_LIMIT as nat);
        let (o1, c1) = if first { (out, false) } else { append_bounded(out, "\n"@, DISPLAY_MESSAGE_LIMIT as nat) };
        match display_item_text(items.last()) {
            Some(t) => {
                lemma_append_bounded(o1, t, DISPLAY_MESSAGE_LIMIT as nat);
            },
            None => {},
        }
    }
}

/// Display text of a content value, bounded to the message limit and marked
/// internally when cut; empty text is no text.
pub open spec fn display_content_spec(v: Option<JsonValue>) -> Option<Seq<char>> {
    match v {
        None => None,
        Some(value) => {
            let (out, truncated) = match value {
                JsonValue::Str(s) => append_bounded(Seq::empty(), s@, DISPLAY_MESSAGE_LIMIT as nat),
                JsonValue::Object(f) => match first_text_member(f@) {
                    Some(t) => append_bounded(Seq::empty(), t, DISPLAY_MESSAGE_LIMIT as nat),
                    None => (Seq::empty(), false),
                },
                JsonValue::Array(items) => {
                    let (o, c, _) = display_items(items@);
                    (o, c)
                },
                _ => (Seq::empty(), false),
            };
            let marked = if truncated {
                out.push('\0')
            } else {
                out
            };
            if marked.len() > 0 {
                Some(marked)
            } else {
                None
            }
        },
    }
}

fn display_item_text_ref<'a>(item: &'a JsonValue) -> (r: Option<&'a str>)
    ensures
        str_view(r) == display_item_text(*item),
{
    match item {
        JsonValue::Object(f) => {
            let kind = as_str(fields_lookup(f, "type"));
            let allowed = match kind {
                Some(k) => str_eq(k, "text") || str_eq(k, "markdown") || str_eq(k, "toolResult")
                    || str_eq(k, "bashExecution"),
                None => false,
            };
            if allowed {
                first_text_member_ref(f)
            } else {
                None
            }
        },
        _ => None,
    }
}

pub fn display_content(value: Option<&JsonValue>) -> (r: Option<String>)
    ensures
        opt_view(r) == display_content_spec(deref(value)),
{
    let value = match value {
        Some(v) => v,
        None => {
            return None;
        },
    };
    let mut out: Vec<char> = Vec::new();
    let mut out_len: usize = 0;
    let mut truncated = false;
    match value {
        JsonValue::Str(s) => {
            truncated = append_bounded_text(&mut out, &mut out_len, s.as_str(), DISPLAY_MESSAGE_LIMIT);
        },
        JsonValue::Object(f) => {
            match first_text_member_ref(f) {
                Some(t) => {
                    truncated = append_bounded_text(&mut out, &mut out_len, t, DISPLAY_MESSAGE_LIMIT);
                },
                None => {},
            }
        },
        JsonValue::Array(items) => {
            let mut first = true;
            let mut i: usize = 0;
            assert(items@.take(items@.len() as int) =~= items@);
            while i < items.len()
                invariant_except_break
                    (out@, false, first) == display_items(items@.take(i as int)),
                    utf8_len(out@) <= DISPLAY_MESSAGE_LIMIT,
                    !truncated,
                invariant
                    i <= items@.len(),
                    items@.take(items@.len() as int) == items@,
                    out_len == utf8_len(out@),
                ensures
                    (out@, truncated, first) == display_items(items@),
                    out_len == utf8_len(out@),
                decreases items.len() - i,
            {
                assert(items@.take(i + 1).drop_last() =~= items@.take(i as int));
                proof {
                    lemma_display_items_bounded(items@.take(i + 1));
                }
                match display_item_text_ref(&items[i]) {
                    None => {},
                    Some(t) => {
                        if !first {
                            if append_bounded_text(&mut out, &mut out_len, "\n", DISPLAY_MESSAGE_LIMIT) {
                                truncated = true;
                                proof {
                                    lemma_display_items_prefix_cut(items@, i as int);
                                }
                                break;
                            }
                        }
                        first = false;
                        if append_bounded_text(&mut out, &mut out_len, t, DISPLAY_MESSAGE_LIMIT) {
                            truncated = true;
                            proof {
                                lemma_display_items_prefix_cut(items@, i as int);
                            }
                            break;
                        }
                    },
                }
                i = i + 1;
            }
            proof {
                if !truncated {
                    assert(items@.take(items@.len() as int) =~= items@);
                }
            }
        },
        _ => {},
    }
    if truncated {
        out.push('\0');
    }
    if out.len() > 0 {
        Some(string_from_chars(&out))
    } else {
        None
    }
}

/// After the join is cut, later elements change nothing.
pub proof fn lemma_display_items_prefix_cut(items: Seq<JsonValue>, i: int)
    requires
        0 <= i < items.len(),
        display_items(items.take(i + 1)).1,
    ensures
        display_items(items) == display_items(items.take(i + 1)),
    decreases items.len(),
{
    if i + 1 == items.len() {
        assert(items.take(i + 1) =~= items);
    } else {
        assert(items.drop_last().take(i + 1) =~= items.take(i + 1));
        lemma_display_items_prefix_cut(items.drop_last(), i);
    }
}

/// Bytes of a block's display text (saturating, as `str::len` can never
/// exceed the address space).
pub open spec fn preview_bytes(b: BlockView) -> nat {
    match b.preview {
        Some(p) => crate::text::saturate(utf8_len(p)),
        None => 0,
    }
}

pub open spec fn total_preview_bytes(bs: Seq<BlockView>) -> nat
    decreases bs.len(),
{
    if bs.len() == 0 {
        0
    } else {
        preview_bytes(bs[0]) + total_preview_bytes(bs.drop_first())
    }
}

/// Dropping display text from the oldest blocks while the total exceeds the
/// timeline limit; a block that loses its text is marked truncated.
pub open spec fn trim_from(bs: Seq<BlockView>, total: int) -> Seq<BlockView>
    decreases bs.len(),
{
    if bs.len() == 0 {
        bs
    } else if total <= DISPLAY_TOTAL_LIMIT {
        bs
    } else {
        let b = bs[0];
        if b.preview is Some {
            seq![BlockView { preview: None, truncated: true, ..b }] + trim_from(
                bs.drop_first(),
                total - preview_bytes(b),
            )
        } else {
            seq![b] + trim_from(bs.drop_first(), total)
        }
    }
}

pub open spec fn trim_old_display_spec(bs: Seq<BlockView>) -> Seq<BlockView> {
    trim_from(bs, total_preview_bytes(bs) as int)
}

/// After trimming, the display text of a timeline fits the total limit.
pub proof fn lemma_trim_within_total(bs: Seq<BlockView>)
    ensures
        total_preview_bytes(trim_old_display_spec(bs)) <= DISPLAY_TOTAL_LIMIT,
{
    lemma_trim_from_total(bs, total_preview_bytes(bs) as int);
}

proof fn lemma_trim_from_total(bs: Seq<BlockView>, total: int)
    requires
        total == total_preview_bytes(bs),
    ensures
        total_preview_bytes(trim_from(bs, total)) <= DISPLAY_TOTAL_LIMIT,
    decreases bs.len(),
{
    if bs.len() == 0 {
    } else if total <= DISPLAY_TOTAL_LIMIT {
    } else {
        let b = bs[0];
        lemma_trim_from_total(bs.drop_first(), total_preview_bytes(bs.drop_first()) as int);
        if b.preview is Some {
            let head = seq![BlockView { preview: None, truncated: true, ..b }];
            let rest = trim_from(bs.drop_first(), total - preview_bytes(b));
            assert((head + rest).drop_first() =~= rest);
        } else {
            let rest = trim_from(bs.drop_first(), total);
            assert((seq![b] + rest).drop_first() =~= rest);
        }
    }
}

fn block_preview_bytes(b: &GenericTimelineBlock) -> (n: usize)
    ensures
        n == preview_bytes(b@),
{
    match &b.preview {
        Some(p) => crate::text::byte_len(p.as_str()),
        None => 0,
    }
}

pub fn trim_old_display(blocks: &mut Vec<GenericTimelineBlock>)
    ensures
        blocks_view(final(blocks)@) == trim_old_display_spec(blocks_view(old(blocks)@)),
{
    let ghost original = blocks_view(blocks@);
    let mut total: u128 = 0;
    let mut j = blocks.len();
    while j > 0
        invariant
            j <= blocks@.len(),
            original == blocks_view(blocks@),
            original == blocks_view(old(blocks)@),
            total == total_preview_bytes(original.skip(j as int)),
            blocks@.len() <= usize::MAX,
            total <= (blocks@.len() - j) * 0x1_0000_0000_0000_0000,
        decreases j,
    {
        j = j - 1;
        assert(original.skip(j as int).drop_first() =~= original.skip(j + 1));
        assert(original.skip(j as int)[0] == blocks@[j as int]@);
        total = total + block_preview_bytes(&blocks[j]) as u128;
    }
    assert(original.skip(0) =~= original);
    let mut i: usize = 0;
    assert(blocks_view(blocks@).take(0) + trim_from(original.skip(0), total as int) =~= trim_from(original, total as int));
    while i < blocks.len()
        invariant
            i <= blocks@.len(),
            original == blocks_view(old(blocks)@),
            blocks@.len() == original.len(),
            total == total_preview_bytes(original.skip(i as int)),
            blocks_view(blocks@).skip(i as int) == original.skip(i as int),
            trim_old_display_spec(original) == blocks_view(blocks@).take(i as int) + trim_from(
                original.skip(i as int),
                total as int,
            ),
        decreases blocks.len() - i,
    {
        let ghost rest = original.skip(i as int);
        assert(rest.drop_first() =~= original.skip(i + 1));
        assert(rest[0] == blocks@[i as int]@);
        if total <= DISPLAY_TOTAL_LIMIT as u128 {
            assert(trim_from(original.skip(i as int), total as int) == original.skip(i as int));
            assert(blocks_view(blocks@) =~= blocks_view(blocks@).take(i as int) + blocks_view(blocks@).skip(i as int));
            return;
        }
        let n = block_preview_bytes(&blocks[i]);
        if blocks[i].preview.is_some() {
            let ghost before = blocks@;
            let b = &mut blocks[i];
            b.preview = None;
            b.truncated = true;
            total = total - n as u128;
            proof {
                assert(blocks@[i as int]@ == (BlockView { preview: None, truncated: true, ..before[i as int]@ }));
                assert forall|k: int| 0 <= k < blocks@.len() && k != i implies blocks@[k] == before[k] by {}
                assert(blocks_view(blocks@).take(i + 1) =~= blocks_view(before).take(i as int).push(blocks@[i as int]@));
                assert(blocks_view(blocks@).skip(i + 1) =~= blocks_view(before).skip(i + 1));
            }
        }
        proof {
            assert(blocks_view(blocks@).take(i + 1) =~= blocks_view(blocks@).take(i as int).push(blocks@[i as int]@));
        }
        i = i + 1;
    }
    assert(blocks_view(blocks@).take(i as int) =~= blocks_view(blocks@));
}

} // verus!
