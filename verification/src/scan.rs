//! Framing and field extraction for session JSONL.
//!
//! A session file is split on LF bytes only; each complete frame is decoded as
//! UTF-8 and parsed as JSON, and a bounded, payload-safe projection of each
//! record is taken from a small allowlist of fields.
use vstd::prelude::*;
use crate::json::{
    JsonValue, fields_get, fields_lookup, jstr, jbool, jget, ojget, deref, str_view, ref_matches,
    get, oget, as_str, as_bool,
};
use crate::text::{safe_text, safe_text_spec, str_eq, push_str, byte_len, saturate, utf8_len};

verus! {

/// Maximum characters of a search/summary preview.
pub const PREVIEW_LIMIT: usize = 120;

/// Maximum characters of an entry type label.
pub const TYPE_LIMIT: usize = 80;

/// Maximum bytes of a session header working directory.
pub const HEADER_CWD_MAX_BYTES: usize = 32768;

// ---------------------------------------------------------------------------
// Framing

/// Frames of `b` cut at LF bytes, and where the unterminated tail starts.
pub open spec fn lf_state(b: Seq<u8>) -> (Seq<Seq<u8>>, int)
    decreases b.len(),
{
    if b.len() == 0 {
        (Seq::empty(), 0)
    } else {
        let (frames, start) = lf_state(b.drop_last());
        if b.last() == 10u8 {
            (frames.push(b.subrange(start, b.len() - 1)), b.len() as int)
        } else {
            (frames, start)
        }
    }
}

/// The complete frames of `b`: the bytes between consecutive LFs, without them.
pub open spec fn lf_frame_seq(b: Seq<u8>) -> Seq<Seq<u8>> {
    lf_state(b).0
}

/// Length of the prefix of `b` that ends with its last LF.
pub open spec fn lf_complete_len(b: Seq<u8>) -> int {
    lf_state(b).1
}

/// Each frame followed by an LF.
pub open spec fn rejoin(frames: Seq<Seq<u8>>) -> Seq<u8>
    decreases frames.len(),
{
    if frames.len() == 0 {
        Seq::empty()
    } else {
        rejoin(frames.drop_last()) + frames.last() + seq![10u8]
    }
}

pub proof fn lemma_lf_state(b: Seq<u8>)
    ensures
        0 <= lf_complete_len(b) <= b.len(),
        rejoin(lf_frame_seq(b)) == b.take(lf_complete_len(b)),
        forall|k: int| lf_complete_len(b) <= k < b.len() ==> b[k] != 10u8,
        forall|i: int, k: int|
            0 <= i < lf_frame_seq(b).len() && 0 <= k < lf_frame_seq(b)[i].len() ==> #[trigger] lf_frame_seq(b)[i][k] != 10u8,
        lf_frame_seq(b).len() <= b.len(),
    decreases b.len(),
{
    if b.len() > 0 {
        let p = b.drop_last();
        lemma_lf_state(p);
        let (frames, start) = lf_state(p);
        if b.last() == 10u8 {
            let f = b.subrange(start, b.len() - 1);
            assert(frames.push(f).drop_last() =~= frames);
            assert(b.take(b.len() as int) =~= p.take(start) + f + seq![10u8]);
            assert forall|i: int, k: int|
                0 <= i < frames.push(f).len() && 0 <= k < frames.push(f)[i].len() implies #[trigger] frames.push(f)[i][k] != 10u8 by {
                if i == frames.len() {
                    assert(f[k] == b[start + k]);
                    assert(b[start + k] == p[start + k]);
                } else {
                    assert(frames.push(f)[i] == frames[i]);
                }
            }
        } else {
            assert(b.take(start) =~= p.take(start));
            assert forall|k: int| start <= k < b.len() implies b[k] != 10u8 by {
                if k < p.len() {
                    assert(b[k] == p[k]);
                }
            }
        }
    }
}

/// Splits only on byte `0x0A`; CR and Unicode separators remain frame data.
/// Returns each complete frame with its 1-based line number, and the length
/// of the prefix that ends with the last LF.
pub fn lf_frames(bytes: &[u8]) -> (r: (Vec<(u64, &[u8])>, usize))
    ensures
        r.0@.len() == lf_frame_seq(bytes@).len(),
        forall|i: int|
            0 <= i < r.0@.len() ==> (#[trigger] r.0@[i]).0 == i + 1 && r.0@[i].1@ == lf_frame_seq(
                bytes@,
            )[i],
        r.1 == lf_complete_len(bytes@),
{
    let mut frames: Vec<(u64, &[u8])> = Vec::new();
    let mut start: usize = 0;
    let mut i: usize = 0;
    while i < bytes.len()
        invariant
            i <= bytes@.len(),
            start == lf_complete_len(bytes@.take(i as int)),
            frames@.len() == lf_frame_seq(bytes@.take(i as int)).len(),
            forall|j: int|
                0 <= j < frames@.len() ==> (#[trigger] frames@[j]).0 == j + 1 && frames@[j].1@
                    == lf_frame_seq(bytes@.take(i as int))[j],
        decreases bytes.len() - i,
    {
        proof {
            lemma_lf_state(bytes@.take(i as int));
            assert(bytes@.take(i + 1).drop_last() =~= bytes@.take(i as int));
        }
        if bytes[i] == 10u8 {
            let frame = &bytes[start..i];
            let line = (frames.len() + 1) as u64;
            frames.push((line, frame));
            proof {
                assert(bytes@.take(i + 1).subrange(start as int, i as int) =~= bytes@.subrange(
                    start as int,
                    i as int,
                ));
            }
            start = i + 1;
        }
        i = i + 1;
    }
    assert(bytes@.take(bytes@.len() as int) =~= bytes@);
    (frames, start)
}

// ---------------------------------------------------------------------------
// Outside calls: UTF-8 validation and digests

/// Calls `std::str::from_utf8` and copies the text. As std documents: it
/// succeeds exactly on valid UTF-8; on failure it reports `valid_up_to`, the
/// largest index such that the prefix up to it is valid.
#[verifier::external_body]
pub fn utf8_text(bytes: &[u8]) -> (r: Result<String, usize>)
    ensures
        match r {
            Ok(s) => vstd::utf8::valid_utf8(bytes@) && s@ == vstd::utf8::decode_utf8(bytes@),
            Err(n) => {
                &&& !vstd::utf8::valid_utf8(bytes@)
                &&& n <= bytes@.len()
                &&& vstd::utf8::valid_utf8(bytes@.take(n as int))
                &&& forall|m: int|
                    n < m <= bytes@.len() ==> !vstd::utf8::valid_utf8(#[trigger] bytes@.take(m))
            },
        },
{
    match std::str::from_utf8(bytes) {
        Ok(text) => Ok(text.to_owned()),
        Err(error) => Err(error.valid_up_to()),
    }
}

/// Lower-case hexadecimal SHA-256 digest of a byte sequence, as
/// `format!("{:x}", sha2::Sha256::digest(bytes))` spells it.
pub uninterp spec fn sha256_hex_of(bytes: Seq<u8>) -> Seq<char>;

/// Calls `sha2::Sha256::digest` and formats it with `{:x}`. The digest itself
/// is only named; the contract adds what the format guarantees: 32 bytes give
/// 64 lower-case hexadecimal digits.
#[verifier::external_body]
pub fn sha256(bytes: &[u8]) -> (r: String)
    ensures
        r@ == sha256_hex_of(bytes@),
        r@.len() == 64,
        forall|i: int| 0 <= i < 64 ==> is_lower_hex_char(#[trigger] r@[i]),
{
    format!("{:x}", <sha2::Sha256 as sha2::Digest>::digest(bytes))
}

pub open spec fn is_lower_hex_char(c: char) -> bool {
    ('0' <= c && c <= '9') || ('a' <= c && c <= 'f')
}

pub open spec fn is_hex_char(c: char) -> bool {
    ('0' <= c && c <= '9') || ('a' <= c && c <= 'f') || ('A' <= c && c <= 'F')
}

/// Exactly 64 ASCII hexadecimal digits.
pub open spec fn sha256_hex_shape(s: Seq<char>) -> bool {
    s.len() == 64 && forall|i: int| 0 <= i < s.len() ==> is_hex_char(#[trigger] s[i])
}

pub fn is_sha256_hex(value: &str) -> (r: bool)
    ensures
        r == sha256_hex_shape(value@),
{
    let chars = crate::text::str_chars(value);
    if chars.len() != 64 {
        return false;
    }
    let mut i: usize = 0;
    while i < chars.len()
        invariant
            i <= chars@.len(),
            chars@ == value@,
            forall|j: int| 0 <= j < i ==> is_hex_char(#[trigger] chars@[j]),
        decreases chars.len() - i,
    {
        let c = chars[i];
        if !(('0' <= c && c <= '9') || ('a' <= c && c <= 'f') || ('A' <= c && c <= 'F')) {
            return false;
        }
        i = i + 1;
    }
    true
}

// ---------------------------------------------------------------------------
// Field extraction

/// The members of an object value.
pub open spec fn object_fields(v: Option<JsonValue>) -> Option<Seq<(String, JsonValue)>> {
    match v {
        Some(JsonValue::Object(fields)) => Some(fields@),
        _ => None,
    }
}

pub open spec fn fields_ref_matches(
    r: Option<&Vec<(String, JsonValue)>>,
    s: Option<Seq<(String, JsonValue)>>,
) -> bool {
    match r {
        Some(f) => s == Some(f@),
        None => s is None,
    }
}

pub fn as_object<'a>(v: Option<&'a JsonValue>) -> (r: Option<&'a Vec<(String, JsonValue)>>)
    ensures
        fields_ref_matches(r, object_fields(deref(v))),
{
    match v {
        Some(JsonValue::Object(fields)) => Some(fields),
        _ => None,
    }
}

/// The first of `keys` whose member is a non-empty string, normalized to a
/// preview-sized display text.
pub open spec fn string_field_spec(fields: Seq<(String, JsonValue)>, keys: Seq<Seq<char>>) -> Option<
    Seq<char>,
>
    decreases keys.len(),
{
    if keys.len() == 0 {
        None
    } else {
        match jstr(fields_get(fields, keys[0])) {
            Some(s) => if s.len() > 0 {
                Some(safe_text_spec(s, PREVIEW_LIMIT as nat))
            } else {
                string_field_spec(fields, keys.drop_first())
            },
            None => string_field_spec(fields, keys.drop_first()),
        }
    }
}

pub open spec fn keys_view(keys: Seq<&str>) -> Seq<Seq<char>> {
    keys.map_values(|k: &str| k@)
}

pub fn string_field(fields: &Vec<(String, JsonValue)>, keys: &[&str]) -> (r: Option<String>)
    ensures
        opt_view_eq(r, string_field_spec(fields@, keys_view(keys@))),
{
    let mut i: usize = 0;
    assert(keys_view(keys@).skip(0) =~= keys_view(keys@));
    while i < keys.len()
        invariant
            i <= keys@.len(),
            string_field_spec(fields@, keys_view(keys@)) == string_field_spec(
                fields@,
                keys_view(keys@).skip(i as int),
            ),
        decreases keys.len() - i,
    {
        let ghost rest = keys_view(keys@).skip(i as int);
        assert(rest[0] == keys@[i as int]@);
        assert(rest.drop_first() =~= keys_view(keys@).skip(i + 1));
        let value = as_str(fields_lookup(fields, keys[i]));
        assert(str_view(value) == jstr(fields_get(fields@, rest[0])));
        match value {
            Some(s) => {
                if !s.is_empty() {
                    return Some(safe_text(s, PREVIEW_LIMIT));
                }
            },
            None => {},
        }
        i = i + 1;
    }
    assert(keys_view(keys@).skip(i as int).len() == 0);
    None
}

pub open spec fn opt_view_eq(r: Option<String>, s: Option<Seq<char>>) -> bool {
    crate::text::opt_view(r) == s
}


pub open spec fn cwd_keys() -> Seq<Seq<char>> {
    seq!["cwd"@, "projectCwd"@, "project_cwd"@]
}

/// The first non-empty working directory among `keys`, kept exactly as
/// written; `Err` when it is longer than the bound in bytes.
pub open spec fn header_cwd_from(fields: Seq<(String, JsonValue)>, keys: Seq<Seq<char>>) -> Result<
    Option<Seq<char>>,
    (),
>
    decreases keys.len(),
{
    if keys.len() == 0 {
        Ok(None)
    } else {
        match jstr(fields_get(fields, keys[0])) {
            Some(s) => if s.len() == 0 {
                header_cwd_from(fields, keys.drop_first())
            } else if utf8_len(s) > HEADER_CWD_MAX_BYTES {
                Err(())
            } else {
                Ok(Some(s))
            },
            None => header_cwd_from(fields, keys.drop_first()),
        }
    }
}

pub open spec fn cwd_result_matches(r: Result<Option<String>, ()>, s: Result<Option<Seq<char>>, ()>) -> bool {
    match r {
        Ok(o) => s == Ok::<Option<Seq<char>>, ()>(crate::text::opt_view(o)),
        Err(_) => s is Err,
    }
}

/// Reads the session-header working directory without normalizing it.
pub fn header_cwd_field(fields: &Vec<(String, JsonValue)>) -> (r: Result<Option<String>, ()>)
    ensures
        cwd_result_matches(r, header_cwd_from(fields@, cwd_keys())),
{
    let keys = ["cwd", "projectCwd", "project_cwd"];
    let ghost kv = cwd_keys();
    let mut i: usize = 0;
    assert(kv.skip(0) =~= kv);
    while i < 3
        invariant
            i <= 3,
            kv == cwd_keys(),
            forall|j: int| 0 <= j < 3 ==> (#[trigger] keys@[j])@ == kv[j],
            header_cwd_from(fields@, kv) == header_cwd_from(fields@, kv.skip(i as int)),
        decreases 3 - i,
    {
        assert(kv.skip(i as int)[0] == kv[i as int]);
        assert(kv.skip(i as int).drop_first() =~= kv.skip(i + 1));
        match as_str(fields_lookup(fields, keys[i])) {
            Some(value) => {
                if !value.is_empty() {
                    if byte_len(value) > HEADER_CWD_MAX_BYTES {
                        return Err(());
                    }
                    return Ok(Some(value.to_owned()));
                }
            },
            None => {},
        }
        i = i + 1;
    }
    assert(kv.skip(3).len() == 0);
    Ok(None)
}

/// Text of one element of an array content value.
pub open spec fn text_piece(item: JsonValue) -> Seq<char> {
    match item {
        JsonValue::Str(t) => t@,
        JsonValue::Object(f) => match jstr(fields_get(f@, "text"@)) {
            Some(t) => t,
            None => Seq::empty(),
        },
        _ => Seq::empty(),
    }
}

pub open spec fn text_pieces(items: Seq<JsonValue>) -> Seq<char>
    decreases items.len(),
{
    if items.len() == 0 {
        Seq::empty()
    } else {
        text_pieces(items.drop_last()) + text_piece(items.last())
    }
}

/// The plain text of a content value: a string, the concatenated texts of
/// an array, or an object's `text`.
pub open spec fn text_content_spec(v: JsonValue) -> Option<Seq<char>> {
    match v {
        JsonValue::Str(s) => Some(s@),
        JsonValue::Array(items) => if text_pieces(items@).len() > 0 {
            Some(text_pieces(items@))
        } else {
            None
        },
        JsonValue::Object(f) => jstr(fields_get(f@, "text"@)),
        _ => None,
    }
}

pub fn text_content(value: &JsonValue) -> (r: Option<String>)
    ensures
        crate::text::opt_view(r) == text_content_spec(*value),
{
    match value {
        JsonValue::Str(s) => Some(s.clone()),
        JsonValue::Array(items) => {
            let mut text = String::new();
            let mut i: usize = 0;
            while i < items.len()
                invariant
                    i <= items@.len(),
                    text@ == text_pieces(items@.take(i as int)),
                decreases items.len() - i,
            {
                assert(items@.take(i + 1).drop_last() =~= items@.take(i as int));
                match &items[i] {
                    JsonValue::Str(t) => {
                        push_str(&mut text, t.as_str());
                    },
                    JsonValue::Object(f) => {
                        match as_str(fields_lookup(f, "text")) {
                            Some(t) => {
                                push_str(&mut text, t);
                            },
                            None => {
                                assert(text@ + Seq::<char>::empty() =~= text@);
                            },
                        }
                    },
                    _ => {
                        assert(text@ + Seq::<char>::empty() =~= text@);
                    },
                }
                i = i + 1;
            }
            assert(items@.take(items@.len() as int) =~= items@);
            if text.as_str().is_empty() {
                None
            } else {
                Some(text)
            }
        },
        JsonValue::Object(f) => match as_str(fields_lookup(f, "text")) {
            Some(t) => Some(t.to_owned()),
            None => None,
        },
        _ => None,
    }
}

/// A preview: the content's text normalized and bounded, when not empty.
pub open spec fn preview_spec(v: JsonValue) -> Option<Seq<char>> {
    match text_content_spec(v) {
        Some(t) => if safe_text_spec(t, PREVIEW_LIMIT as nat).len() > 0 {
            Some(safe_text_spec(t, PREVIEW_LIMIT as nat))
        } else {
            None
        },
        None => None,
    }
}

pub fn preview(value: &JsonValue) -> (r: Option<String>)
    ensures
        crate::text::opt_view(r) == preview_spec(*value),
{
    match text_content(value) {
        Some(t) => {
            let p = safe_text(t.as_str(), PREVIEW_LIMIT);
            if p.as_str().is_empty() {
                None
            } else {
                Some(p)
            }
        },
        None => None,
    }
}

pub open spec fn is_image_type(t: Option<Seq<char>>) -> bool {
    t == Some("image"@) || t == Some("image_url"@) || t == Some("input_image"@)
}

/// Whether a value holds an image part anywhere inside it.
pub open spec fn has_image(v: JsonValue) -> bool
    decreases v,
{
    match v {
        JsonValue::Object(fields) => is_image_type(jstr(fields_get(fields@, "type"@)))
            || fields_have_image(fields@),
        JsonValue::Array(items) => items_have_image(items@),
        _ => false,
    }
}

pub open spec fn fields_have_image(fields: Seq<(String, JsonValue)>) -> bool
    decreases fields,
{
    if fields.len() == 0 {
        false
    } else {
        fields_have_image(fields.drop_last()) || has_image(fields.last().1)
    }
}

pub open spec fn items_have_image(items: Seq<JsonValue>) -> bool
    decreases items,
{
    if items.len() == 0 {
        false
    } else {
        items_have_image(items.drop_last()) || has_image(items.last())
    }
}

pub fn content_has_image(value: &JsonValue) -> (r: bool)
    ensures
        r == has_image(*value),
    decreases value,
{
    match value {
        JsonValue::Object(fields) => {
            let kind = as_str(fields_lookup(fields, "type"));
            let typed = match kind {
                Some(k) => str_eq(k, "image") || str_eq(k, "image_url") || str_eq(k, "input_image"),
                None => false,
            };
            if typed {
                return true;
            }
            let mut found = false;
            let mut i: usize = 0;
            while i < fields.len()
                invariant
                    i <= fields@.len(),
                    found == fields_have_image(fields@.take(i as int)),
                    *value == JsonValue::Object(*fields),
                decreases fields.len() - i,
            {
                assert(fields@.take(i + 1).drop_last() =~= fields@.take(i as int));
                proof {
                    vstd::std_specs::vec::axiom_vec_index_decreases(*fields, i as int);
                    assert(decreases_to!(*value => value->Object_0));
                }
                let inner = content_has_image(&fields[i].1);
                found = found || inner;
                i = i + 1;
            }
            assert(fields@.take(fields@.len() as int) =~= fields@);
            found
        },
        JsonValue::Array(items) => {
            let mut found = false;
            let mut i: usize = 0;
            while i < items.len()
                invariant
                    i <= items@.len(),
                    found == items_have_image(items@.take(i as int)),
                    *value == JsonValue::Array(*items),
                decreases items.len() - i,
            {
                assert(items@.take(i + 1).drop_last() =~= items@.take(i as int));
                proof {
                    vstd::std_specs::vec::axiom_vec_index_decreases(*items, i as int);
                    assert(decreases_to!(*value => value->Array_0));
                }
                let inner = content_has_image(&items[i]);
                found = found || inner;
                i = i + 1;
            }
            assert(items@.take(items@.len() as int) =~= items@);
            found
        },
        _ => false,
    }
}


/// Entry types the scanner understands.
pub open spec fn known_types() -> Seq<Seq<char>> {
    seq![
        "session"@,
        "session_meta"@,
        "session_info"@,
        "message"@,
        "custom"@,
        "custom_message"@,
        "compaction"@,
        "model_change"@,
        "thinking_level_change"@,
        "label"@,
        "branch_summary"@,
        "tool"@,
        "tool_result"@,
    ]
}

pub fn is_known_type(t: &str) -> (r: bool)
    ensures
        r == known_types().contains(t@),
{
    let types = [
        "session",
        "session_meta",
        "session_info",
        "message",
        "custom",
        "custom_message",
        "compaction",
        "model_change",
        "thinking_level_change",
        "label",
        "branch_summary",
        "tool",
        "tool_result",
    ];
    let ghost kt = known_types();
    assert(forall|j: int| 0 <= j < 13 ==> (#[trigger] types@[j])@ == kt[j]);
    let mut i: usize = 0;
    while i < 13
        invariant
            i <= 13,
            kt == known_types(),
            forall|j: int| 0 <= j < 13 ==> (#[trigger] types@[j])@ == kt[j],
            forall|j: int| 0 <= j < i ==> kt[j] != t@,
        decreases 13 - i,
    {
        if str_eq(types[i], t) {
            assert(kt[i as int] == t@);
            return true;
        }
        i = i + 1;
    }
    assert(!kt.contains(t@)) by {
        if kt.contains(t@) {
            let j = choose|j: int| 0 <= j < kt.len() && kt[j] == t@;
            assert(j < 13);
        }
    }
    false
}

/// The entry's message object, when it has one.
pub open spec fn message_of(fields: Seq<(String, JsonValue)>) -> Option<Seq<(String, JsonValue)>> {
    object_fields(fields_get(fields, "message"@))
}

pub open spec fn member_of(m: Option<Seq<(String, JsonValue)>>, key: Seq<char>) -> Option<JsonValue> {
    match m {
        Some(f) => fields_get(f, key),
        None => None,
    }
}

/// The content of a record: the message's `content`, else the record's own
/// `content`, else its `text`.
pub open spec fn content_of(fields: Seq<(String, JsonValue)>) -> Option<JsonValue> {
    crate::json::first_some(
        member_of(message_of(fields), "content"@),
        crate::json::first_some(fields_get(fields, "content"@), fields_get(fields, "text"@)),
    )
}

pub open spec fn opt_seq_or(a: Option<Seq<char>>, b: Option<Seq<char>>) -> Option<Seq<char>> {
    if a is Some {
        a
    } else {
        b
    }
}

pub open spec fn role_of(fields: Seq<(String, JsonValue)>) -> Option<Seq<char>> {
    opt_seq_or(
        match message_of(fields) {
            Some(m) => string_field_spec(m, seq!["role"@]),
            None => None,
        },
        string_field_spec(fields, seq!["role"@]),
    )
}

pub open spec fn preview_of(c: Option<JsonValue>) -> Option<Seq<char>> {
    match c {
        Some(v) => preview_spec(v),
        None => None,
    }
}

pub open spec fn opt_has_image(c: Option<JsonValue>) -> bool {
    match c {
        Some(v) => has_image(v),
        None => false,
    }
}

/// The projection of one record. Unknown records carry only their ids,
/// type and timestamp.
pub open spec fn entry_spec(
    fields: Seq<(String, JsonValue)>,
    line: u64,
    order: usize,
    known: bool,
    entry_type: Seq<char>,
) -> crate::report::EntryView {
    let content = if known {
        content_of(fields)
    } else {
        None
    };
    crate::report::EntryView {
        line,
        order,
        entry_id: string_field_spec(fields, seq!["entryId"@, "id"@]),
        parent_id: string_field_spec(fields, seq!["parentId"@, "parent_id"@]),
        entry_type: safe_text_spec(entry_type, TYPE_LIMIT as nat),
        role: if known {
            role_of(fields)
        } else {
            None
        },
        preview: preview_of(content),
        created_at: string_field_spec(fields, seq!["timestamp"@, "createdAt"@, "created_at"@]),
        has_image: known && (opt_has_image(content) || opt_has_image(
            fields_get(fields, "images"@),
        )),
        model_ref: if known {
            string_field_spec(fields, seq!["model"@, "modelId"@, "model_id"@])
        } else {
            None
        },
    }
}

pub fn content_ref<'a>(fields: &'a Vec<(String, JsonValue)>) -> (r: Option<&'a JsonValue>)
    ensures
        deref(r) == content_of(fields@),
{
    let message = as_object(fields_lookup(fields, "message"));
    let from_message = match message {
        Some(m) => fields_lookup(m, "content"),
        None => None,
    };
    crate::json::or_else(
        from_message,
        crate::json::or_else(fields_lookup(fields, "content"), fields_lookup(fields, "text")),
    )
}

pub fn role_field(fields: &Vec<(String, JsonValue)>) -> (r: Option<String>)
    ensures
        crate::text::opt_view(r) == role_of(fields@),
{
    let message = as_object(fields_lookup(fields, "message"));
    let keys = ["role"];
    assert(keys_view(keys@) =~= seq!["role"@]);
    let from_message = match message {
        Some(m) => string_field(m, &keys),
        None => None,
    };
    match from_message {
        Some(r) => Some(r),
        None => string_field(fields, &keys),
    }
}

fn opt_content_has_image(c: Option<&JsonValue>) -> (r: bool)
    ensures
        r == opt_has_image(deref(c)),
{
    match c {
        Some(v) => content_has_image(v),
        None => false,
    }
}

pub fn entry_from(
    fields: &Vec<(String, JsonValue)>,
    line: u64,
    order: usize,
    known: bool,
    entry_type: String,
) -> (r: crate::report::IndexedEntry)
    ensures
        r@ == entry_spec(fields@, line, order, known, entry_type@),
{
    let content = if known {
        content_ref(fields)
    } else {
        None
    };
    let id_keys = ["entryId", "id"];
    let parent_keys = ["parentId", "parent_id"];
    let time_keys = ["timestamp", "createdAt", "created_at"];
    let model_keys = ["model", "modelId", "model_id"];
    assert(keys_view(id_keys@) =~= seq!["entryId"@, "id"@]);
    assert(keys_view(parent_keys@) =~= seq!["parentId"@, "parent_id"@]);
    assert(keys_view(time_keys@) =~= seq!["timestamp"@, "createdAt"@, "created_at"@]);
    assert(keys_view(model_keys@) =~= seq!["model"@, "modelId"@, "model_id"@]);
    let preview_text = match content {
        Some(c) => preview(c),
        None => None,
    };
    let has_image = known && (opt_content_has_image(content) || opt_content_has_image(
        fields_lookup(fields, "images"),
    ));
    crate::report::IndexedEntry {
        line,
        order,
        entry_id: string_field(fields, &id_keys),
        parent_id: string_field(fields, &parent_keys),
        entry_type: safe_text(entry_type.as_str(), TYPE_LIMIT),
        role: if known {
            role_field(fields)
        } else {
            None
        },
        preview: preview_text,
        created_at: string_field(fields, &time_keys),
        has_image,
        model_ref: if known {
            string_field(fields, &model_keys)
        } else {
            None
        },
    }
}

} // verus!
