//! Projection of validated extension manifests into the UI contribution
//! catalog: version compatibility, duplicate-id fail-closed, and a stable,
//! deterministic order. Native package paths, handlers and raw manifest JSON
//! never enter the catalog.
use vstd::prelude::*;
use crate::extensions::{
    ValidatedManifest, CommandContribution, ComposerActionContribution, CommandView, ActionView, ManifestView,
    has_prefix, commands_view, actions_view,
};
use crate::api::{ExtensionOrigin, ExtensionResource};
use crate::text::{str_chars, str_eq, is_whitespace, is_whitespace_char, opt_view, string_from_range};
use crate::sorting::{
    bytes_lt, bytes_less, bytes_equal, sort_by_spec, insert_by, insert_pos, sorted_by, strict_weak_order,
    lemma_bytes_lt_irreflexive, lemma_bytes_lt_total, lemma_bytes_lt_transitive, lemma_insert_pos,
    lemma_sort_by_sorted,
};
use vstd::utf8::encode_utf8;

verus! {

/// The version of this PiUI build that manifests are negotiated against.
pub const PIUI_VERSION: &'static str = "0.1.0";
/// At most this many extension packages are inspected for manifests.
pub const MAX_MANIFEST_PACKAGES: usize = 128;

/// A `major.minor.patch` version.
#[derive(Clone, Copy, Debug, PartialEq, Eq, Structural)]
pub struct Version {
    pub major: u64,
    pub minor: u64,
    pub patch: u64,
}

/// Versions order by major, then minor, then patch.
pub open spec fn version_lt(a: Version, b: Version) -> bool {
    a.major < b.major || (a.major == b.major && (a.minor < b.minor || (a.minor == b.minor && a.patch < b.patch)))
}

/// Versions are totally and strictly ordered, and the order is the
/// lexicographic one: a lower major version comes first, then, within a
/// major version, a lower minor one, then, within both, a lower patch.
pub proof fn lemma_version_order(a: Version, b: Version, c: Version)
    ensures
        !version_lt(a, a),
        version_lt(a, b) ==> !version_lt(b, a),
        version_lt(a, b) && version_lt(b, c) ==> version_lt(a, c),
        a != b ==> version_lt(a, b) || version_lt(b, a),
        a.major < b.major ==> version_lt(a, b),
        a.major == b.major && a.minor < b.minor ==> version_lt(a, b),
        a.major == b.major && a.minor == b.minor && a.patch < b.patch ==> version_lt(a, b),
{
}

pub fn version_less(a: Version, b: Version) -> (r: bool)
    ensures
        r == version_lt(a, b),
{
    a.major < b.major || (a.major == b.major && (a.minor < b.minor || (a.minor == b.minor && a.patch < b.patch)))
}

pub open spec fn is_digit(c: char) -> bool {
    '0' <= c && c <= '9'
}

/// The number a sequence of decimal digits spells.
pub open spec fn digits_value(d: Seq<char>) -> nat
    decreases d.len(),
{
    if d.len() == 0 {
        0
    } else {
        digits_value(d.drop_last()) * 10 + ((d.last() as nat) - ('0' as nat)) as nat
    }
}

/// `str::parse::<u64>`: an optional `+`, then one or more decimal digits
/// whose value fits.
pub open spec fn parse_u64_spec(s: Seq<char>) -> Option<u64> {
    digits_to_u64(unsigned_digits(s))
}

/// The digits after an optional leading `+`.
pub open spec fn unsigned_digits(s: Seq<char>) -> Seq<char> {
    if s.len() > 0 && s[0] == '+' {
        s.drop_first()
    } else {
        s
    }
}

pub open spec fn all_digits(d: Seq<char>) -> bool {
    forall|i: int| 0 <= i < d.len() ==> is_digit(#[trigger] d[i])
}

/// One or more decimal digits whose value fits `u64`.
pub open spec fn digits_to_u64(d: Seq<char>) -> Option<u64> {
    if d.len() == 0 || !all_digits(d) || digits_value(d) > u64::MAX {
        None
    } else {
        Some(digits_value(d) as u64)
    }
}

proof fn lemma_digits_value_grows(d: Seq<char>, k: int)
    requires
        0 <= k <= d.len(),
        forall|i: int| 0 <= i < d.len() ==> is_digit(#[trigger] d[i]),
    ensures
        digits_value(d.take(k)) <= digits_value(d),
    decreases d.len() - k,
{
    if k < d.len() {
        assert(d.take(k + 1).drop_last() =~= d.take(k));
        assert(is_digit(d[k]));
        lemma_digits_value_grows(d, k + 1);
    } else {
        assert(d.take(k) =~= d);
    }
}

pub fn parse_u64(s: &str) -> (r: Option<u64>)
    ensures
        r == parse_u64_spec(s@),
{
    let chars = str_chars(s);
    let start: usize = if chars.len() > 0 && chars[0] == '+' { 1 } else { 0 };
    let ghost d = unsigned_digits(s@);
    assert(d =~= chars@.skip(start as int));
    if chars.len() == start {
        return None;
    }
    let mut value: u64 = 0;
    let mut i = start;
    while i < chars.len()
        invariant
            chars@ == s@,
            d == unsigned_digits(s@),
            d == chars@.skip(start as int),
            start <= i <= chars@.len(),
            forall|j: int| start <= j < i ==> is_digit(#[trigger] chars@[j]),
            value as nat == digits_value(d.take(i - start)),
        decreases chars.len() - i,
    {
        let c = chars[i];
        if !('0' <= c && c <= '9') {
            assert(d[i - start] == c);
            assert(!is_digit(d[i - start]));
            return None;
        }
        let digit = (c as u32 - '0' as u32) as u64;
        assert(d.take(i - start + 1).drop_last() =~= d.take(i - start));
        assert(d.take(i - start + 1).last() == c);
        if value > 1844674407370955161u64 || (value == 1844674407370955161u64 && digit > 5) {
            proof {
                assert(digit as nat == (c as nat) - ('0' as nat));
                assert(digits_value(d.take(i - start + 1)) == digits_value(d.take(i - start)) * 10 + digit);
                assert(digits_value(d.take(i - start + 1)) > u64::MAX);
                if all_digits(d) {
                    lemma_digits_value_grows(d, i - start + 1);
                    assert(digits_value(d) > u64::MAX);
                }
            }
            return None;
        }
        value = value * 10 + digit;
        i = i + 1;
    }
    assert(d.take(d.len() as int) =~= d);
    assert forall|j: int| 0 <= j < d.len() implies is_digit(#[trigger] d[j]) by {
        assert(d[j] == chars@[start + j]);
    }
    Some(value)
}

proof fn lemma_digit_char_value(d: nat)
    requires
        d < 10,
    ensures
        is_digit(crate::text::digit_char(d)),
        (crate::text::digit_char(d) as nat) - ('0' as nat) == d,
{
    assert(('0' as nat) == 48);
    if d == 0 {
        assert(('0' as nat) == 48);
    } else if d == 1 {
        assert(('1' as nat) == 49);
    } else if d == 2 {
        assert(('2' as nat) == 50);
    } else if d == 3 {
        assert(('3' as nat) == 51);
    } else if d == 4 {
        assert(('4' as nat) == 52);
    } else if d == 5 {
        assert(('5' as nat) == 53);
    } else if d == 6 {
        assert(('6' as nat) == 54);
    } else if d == 7 {
        assert(('7' as nat) == 55);
    } else if d == 8 {
        assert(('8' as nat) == 56);
    } else {
        assert(('9' as nat) == 57);
    }
}

pub proof fn lemma_decimal_digits(n: nat)
    ensures
        crate::text::decimal(n).len() > 0,
        all_digits(crate::text::decimal(n)),
        digits_value(crate::text::decimal(n)) == n,
    decreases n,
{
    let d = crate::text::decimal(n);
    if n < 10 {
        lemma_digit_char_value(n);
        assert(d == seq![crate::text::digit_char(n)]);
        assert(d.drop_last() =~= Seq::<char>::empty());
        assert(d.last() == crate::text::digit_char(n));
        assert(digits_value(d) == digits_value(d.drop_last()) * 10 + ((d.last() as nat) - ('0' as nat)) as nat);
        assert(digits_value(d.drop_last()) == 0);
    } else {
        lemma_decimal_digits(n / 10);
        lemma_digit_char_value(n % 10);
        let p = crate::text::decimal(n / 10);
        assert(d == p.push(crate::text::digit_char(n % 10)));
        assert(d.drop_last() =~= p);
        assert forall|i: int| 0 <= i < d.len() implies is_digit(#[trigger] d[i]) by {
            if i < p.len() {
                assert(d[i] == p[i]);
            }
        }
        assert(d.last() == crate::text::digit_char(n % 10));
        assert(digits_value(d) == digits_value(p) * 10 + ((d.last() as nat) - ('0' as nat)) as nat);
        assert((n / 10) * 10 + n % 10 == n) by (nonlinear_arith);
    }
}

/// A number's decimal spelling parses back to the number.
pub proof fn lemma_parse_decimal(n: u64)
    ensures
        parse_u64_spec(crate::text::decimal(n as nat)) == Some(n),
{
    lemma_decimal_digits(n as nat);
    let d = crate::text::decimal(n as nat);
    assert(is_digit(d[0]));
    assert(unsigned_digits(d) == d);
}

/// `major[.minor[.patch]]`, each an unsigned integer; a missing part is 0
/// and a fourth part is refused.
pub open spec fn parse_version_spec(s: Seq<char>) -> Option<Version> {
    let parts = crate::text::split_on(s, '.');
    let minor_text = if parts.len() > 1 { parts[1] } else { "0"@ };
    let patch_text = if parts.len() > 2 { parts[2] } else { "0"@ };
    match (parse_u64_spec(parts[0]), parse_u64_spec(minor_text), parse_u64_spec(patch_text)) {
        (Some(major), Some(minor), Some(patch)) => if parts.len() > 3 {
            None
        } else {
            Some(Version { major, minor, patch })
        },
        _ => None,
    }
}

pub fn parse_version(value: &str) -> (r: Option<Version>)
    ensures
        r == parse_version_spec(value@),
{
    let parts = crate::text::split_str(value, '.');
    let ghost pv = parts@.map_values(|f: String| f@);
    proof {
        crate::text::lemma_split_on_nonempty(value@, '.');
    }
    assert(parts@.len() == pv.len());
    let major = match parse_u64(parts[0].as_str()) {
        Some(v) => v,
        None => return None,
    };
    let minor = if parts.len() > 1 { parse_u64(parts[1].as_str()) } else { parse_u64("0") };
    let minor = match minor {
        Some(v) => v,
        None => return None,
    };
    let patch = if parts.len() > 2 { parse_u64(parts[2].as_str()) } else { parse_u64("0") };
    let patch = match patch {
        Some(v) => v,
        None => return None,
    };
    if parts.len() > 3 {
        return None;
    }
    Some(Version { major, minor, patch })
}

/// A comparator of a version range token.
#[derive(Clone, Copy, Debug, PartialEq, Eq, Structural)]
pub enum RangeOp {
    AtLeast,
    AtMost,
    Above,
    Below,
    Exactly,
}

/// A token's comparator (`>=`, `<=`, `>`, `<`, `=`, tried in that order)
/// and the version text after it; without one the token is an exact version.
pub open spec fn token_op(t: Seq<char>) -> (RangeOp, Seq<char>) {
    if has_prefix(t, ">="@) {
        (RangeOp::AtLeast, t.skip(2))
    } else if has_prefix(t, "<="@) {
        (RangeOp::AtMost, t.skip(2))
    } else if has_prefix(t, ">"@) {
        (RangeOp::Above, t.skip(1))
    } else if has_prefix(t, "<"@) {
        (RangeOp::Below, t.skip(1))
    } else if has_prefix(t, "="@) {
        (RangeOp::Exactly, t.skip(1))
    } else {
        (RangeOp::Exactly, t)
    }
}

pub open spec fn op_holds(op: RangeOp, current: Version, v: Version) -> bool {
    match op {
        RangeOp::AtLeast => !version_lt(current, v),
        RangeOp::AtMost => !version_lt(v, current),
        RangeOp::Above => version_lt(v, current),
        RangeOp::Below => version_lt(current, v),
        RangeOp::Exactly => current == v,
    }
}

pub open spec fn token_matches(t: Seq<char>, current: Version) -> bool {
    match parse_version_spec(token_op(t).1) {
        Some(v) => op_holds(token_op(t).0, current, v),
        None => false,
    }
}

/// What one range token asks of the current version `c`, for a token made
/// of a comparator and a version `v` that begins with a digit: `>=v` that
/// `c` is `v` or later, `<=v` that it is `v` or earlier, `>v` that it is
/// later, `<v` that it is earlier, and `=v` or a bare `v` that it is `v`.
pub proof fn lemma_token_comparators(s: Seq<char>, v: Version, c: Version)
    requires
        s.len() > 0,
        is_digit(s[0]),
        parse_version_spec(s) == Some(v),
    ensures
        token_matches(">="@ + s, c) == (c == v || version_lt(v, c)),
        token_matches("<="@ + s, c) == (c == v || version_lt(c, v)),
        token_matches(">"@ + s, c) == version_lt(v, c),
        token_matches("<"@ + s, c) == version_lt(c, v),
        token_matches("="@ + s, c) == (c == v),
        token_matches(s, c) == (c == v),
{
    reveal_strlit(">=");
    reveal_strlit("<=");
    reveal_strlit(">");
    reveal_strlit("<");
    reveal_strlit("=");
    lemma_version_order(c, v, c);
    let ge = ">="@ + s;
    let le = "<="@ + s;
    let gt = ">"@ + s;
    let lt = "<"@ + s;
    let eq = "="@ + s;
    assert(ge.take(2) =~= ">="@ && ge.skip(2) =~= s);
    assert(le.take(2) =~= "<="@ && le.skip(2) =~= s);
    assert(gt.take(1) =~= ">"@ && gt.skip(1) =~= s);
    assert(lt.take(1) =~= "<"@ && lt.skip(1) =~= s);
    assert(eq.take(1) =~= "="@ && eq.skip(1) =~= s);
    assert(!crate::extensions::has_prefix(le, ">="@)) by {
        assert(le[0] == '<');
        assert(le.take(2)[0] == '<');
    }
    assert(!crate::extensions::has_prefix(gt, ">="@)) by {
        assert(gt[1] == s[0]);
        assert(gt.take(2)[1] == s[0]);
    }
    assert(!crate::extensions::has_prefix(gt, "<="@)) by {
        assert(gt.take(2)[0] == '>');
    }
    assert(!crate::extensions::has_prefix(lt, ">="@)) by {
        assert(lt.take(2)[0] == '<');
    }
    assert(!crate::extensions::has_prefix(lt, "<="@)) by {
        assert(lt[1] == s[0]);
        assert(lt.take(2)[1] == s[0]);
    }
    assert(!crate::extensions::has_prefix(lt, ">"@)) by {
        assert(lt.take(1)[0] == '<');
    }
    assert(!crate::extensions::has_prefix(eq, ">="@) && !crate::extensions::has_prefix(eq, "<="@)) by {
        assert(eq.take(2)[0] == '=');
    }
    assert(!crate::extensions::has_prefix(eq, ">"@) && !crate::extensions::has_prefix(eq, "<"@)) by {
        assert(eq.take(1)[0] == '=');
    }
    assert(!crate::extensions::has_prefix(s, ">="@) && !crate::extensions::has_prefix(s, "<="@)) by {
        if s.len() >= 2 {
            assert(s.take(2)[0] == s[0]);
        }
    }
    assert(!crate::extensions::has_prefix(s, ">"@) && !crate::extensions::has_prefix(s, "<"@)
        && !crate::extensions::has_prefix(s, "="@)) by {
        assert(s.take(1)[0] == s[0]);
    }
}

/// `s` split at runs of whitespace, without empty tokens
/// (`str::split_whitespace`).
pub open spec fn ws_tokens(s: Seq<char>) -> Seq<Seq<char>>
    decreases s.len(),
{
    ws_tokens_from(s, Seq::empty())
}

/// Tokens of `s` given the partial token `cur` already read.
pub open spec fn ws_tokens_from(s: Seq<char>, cur: Seq<char>) -> Seq<Seq<char>>
    decreases s.len(),
{
    if s.len() == 0 {
        if cur.len() > 0 { seq![cur] } else { Seq::empty() }
    } else if is_whitespace_char(s[0]) {
        (if cur.len() > 0 { seq![cur] } else { Seq::<Seq<char>>::empty() }) + ws_tokens_from(s.drop_first(), Seq::empty())
    } else {
        ws_tokens_from(s.drop_first(), cur.push(s[0]))
    }
}

pub fn split_whitespace_tokens(value: &str) -> (r: Vec<String>)
    ensures
        r@.map_values(|f: String| f@) == ws_tokens(value@),
{
    let chars = str_chars(value);
    let mut out: Vec<String> = Vec::new();
    let mut cur_start: usize = 0;
    let mut i: usize = 0;
    assert(chars@.skip(0) =~= chars@);
    assert(chars@.subrange(0, 0) =~= Seq::<char>::empty());
    assert(out@.map_values(|f: String| f@) =~= Seq::<Seq<char>>::empty());
    assert(Seq::<Seq<char>>::empty() + ws_tokens_from(chars@, Seq::<char>::empty()) =~= ws_tokens(value@));
    while i < chars.len()
        invariant
            chars@ == value@,
            cur_start <= i <= chars@.len(),
            out@.map_values(|f: String| f@) + ws_tokens_from(chars@.skip(i as int), chars@.subrange(cur_start as int, i as int)) == ws_tokens(value@),
        decreases chars.len() - i,
    {
        let ghost rest = chars@.skip(i as int);
        let ghost cur = chars@.subrange(cur_start as int, i as int);
        assert(rest[0] == chars@[i as int]);
        assert(rest.drop_first() =~= chars@.skip(i + 1));
        if is_whitespace(chars[i]) {
            let ghost before = out@.map_values(|f: String| f@);
            if i > cur_start {
                let token = string_from_range(&chars, cur_start, i);
                out.push(token);
                assert(out@.map_values(|f: String| f@) =~= before + seq![cur]);
            } else {
                assert(cur.len() == 0);
            }
            assert(chars@.subrange(i + 1, i + 1) =~= Seq::<char>::empty());
            cur_start = i + 1;
        } else {
            assert(chars@.subrange(cur_start as int, i + 1) =~= cur.push(chars@[i as int]));
        }
        i = i + 1;
    }
    assert(chars@.skip(i as int) =~= Seq::<char>::empty());
    let ghost before = out@.map_values(|f: String| f@);
    if i > cur_start {
        let token = string_from_range(&chars, cur_start, i);
        out.push(token);
        assert(out@.map_values(|f: String| f@) =~= before + seq![chars@.subrange(cur_start as int, i as int)]);
    } else {
        assert(before + Seq::<Seq<char>>::empty() =~= before);
    }
    out
}

/// A range holds when it has at least one token and every token's
/// comparison holds for `current`.
pub open spec fn range_matches_spec(range: Seq<char>, current: Version) -> bool {
    let tokens = ws_tokens(range);
    tokens.len() > 0 && forall|i: int| 0 <= i < tokens.len() ==> token_matches(#[trigger] tokens[i], current)
}

fn token_comparator(token: &str) -> (r: (RangeOp, String))
    ensures
        (r.0, r.1@) == token_op(token@),
{
    let chars = str_chars(token);
    proof {
        reveal_strlit(">=");
        reveal_strlit("<=");
        reveal_strlit(">");
        reveal_strlit("<");
        reveal_strlit("=");
    }
    let n = chars.len();
    if n >= 2 && chars[0] == '>' && chars[1] == '=' {
        assert(token@.take(2) =~= ">="@);
        return (RangeOp::AtLeast, string_from_range(&chars, 2, n));
    }
    assert(!has_prefix(token@, ">="@)) by {
        if has_prefix(token@, ">="@) {
            assert(token@.take(2)[0] == '>' && token@.take(2)[1] == '=');
        }
    }
    if n >= 2 && chars[0] == '<' && chars[1] == '=' {
        assert(token@.take(2) =~= "<="@);
        return (RangeOp::AtMost, string_from_range(&chars, 2, n));
    }
    assert(!has_prefix(token@, "<="@)) by {
        if has_prefix(token@, "<="@) {
            assert(token@.take(2)[0] == '<' && token@.take(2)[1] == '=');
        }
    }
    if n >= 1 && chars[0] == '>' {
        assert(token@.take(1) =~= ">"@);
        return (RangeOp::Above, string_from_range(&chars, 1, n));
    }
    assert(!has_prefix(token@, ">"@)) by {
        if has_prefix(token@, ">"@) {
            assert(token@.take(1)[0] == '>');
        }
    }
    if n >= 1 && chars[0] == '<' {
        assert(token@.take(1) =~= "<"@);
        return (RangeOp::Below, string_from_range(&chars, 1, n));
    }
    assert(!has_prefix(token@, "<"@)) by {
        if has_prefix(token@, "<"@) {
            assert(token@.take(1)[0] == '<');
        }
    }
    if n >= 1 && chars[0] == '=' {
        assert(token@.take(1) =~= "="@);
        return (RangeOp::Exactly, string_from_range(&chars, 1, n));
    }
    assert(!has_prefix(token@, "="@)) by {
        if has_prefix(token@, "="@) {
            assert(token@.take(1)[0] == '=');
        }
    }
    (RangeOp::Exactly, string_from_range(&chars, 0, n))
}

pub fn version_range_matches(range: &str, current: Version) -> (r: bool)
    ensures
        r == range_matches_spec(range@, current),
{
    let tokens = split_whitespace_tokens(range);
    let ghost tv = tokens@.map_values(|f: String| f@);
    let mut saw_comparator = false;
    let mut i: usize = 0;
    while i < tokens.len()
        invariant
            tv == tokens@.map_values(|f: String| f@),
            tv == ws_tokens(range@),
            i <= tokens@.len(),
            saw_comparator == (i > 0),
            forall|j: int| 0 <= j < i ==> token_matches(#[trigger] tv[j], current),
        decreases tokens.len() - i,
    {
        let (op, text) = token_comparator(tokens[i].as_str());
        let version = match parse_version(text.as_str()) {
            Some(v) => v,
            None => {
                assert(!token_matches(tv[i as int], current));
                return false;
            },
        };
        saw_comparator = true;
        let matches = match op {
            RangeOp::AtLeast => !version_less(current, version),
            RangeOp::AtMost => !version_less(version, current),
            RangeOp::Above => version_less(version, current),
            RangeOp::Below => version_less(current, version),
            RangeOp::Exactly => current == version,
        };
        if !matches {
            assert(!token_matches(tv[i as int], current));
            return false;
        }
        i = i + 1;
    }
    saw_comparator
}

/// Whether this build can honour a manifest: no required features, no Pi
/// or Host API range (neither can be negotiated yet), and a PiUI range that
/// this build's version satisfies.
pub open spec fn supports_tier_1a_spec(m: ManifestView) -> bool {
    !m.has_required_features && m.pi_engine_range is None && m.host_api_engine_range is None && match parse_version_spec(
        PIUI_VERSION@,
    ) {
        Some(current) => range_matches_spec(m.piui_engine_range, current),
        None => false,
    }
}

pub fn supports_current_tier_1a(manifest: &ValidatedManifest) -> (r: bool)
    ensures
        r == supports_tier_1a_spec(manifest@),
{
    if manifest.has_required_features || manifest.pi_engine_range.is_some() || manifest.host_api_engine_range.is_some() {
        return false;
    }
    let current = match parse_version(PIUI_VERSION) {
        Some(v) => v,
        None => return false,
    };
    version_range_matches(manifest.piui_engine_range.as_str(), current)
}

// ---------------------------------------------------------------------------
// The contribution catalog

/// The declarative surface the UI may render; package paths, handlers,
/// icons, conditions and manifest JSON are not part of it.
#[derive(Debug)]
pub struct PiUiContributionCatalog {
    pub commands: Vec<PiUiCommandContribution>,
    pub composer_actions: Vec<PiUiComposerActionContribution>,
}

impl Default for PiUiContributionCatalog {
    fn default() -> (r: Self)
        ensures
            r.commands@.len() == 0,
            r.composer_actions@.len() == 0,
    {
        PiUiContributionCatalog { commands: Vec::new(), composer_actions: Vec::new() }
    }
}

#[derive(Debug)]
pub struct PiUiCommandContribution {
    pub extension_id: String,
    pub extension_name: String,
    pub id: String,
    pub title: String,
    pub description: Option<String>,
    pub command_name: String,
}

#[derive(Debug)]
pub struct PiUiComposerActionContribution {
    pub extension_id: String,
    pub extension_name: String,
    pub id: String,
    pub title: String,
    pub description: Option<String>,
    pub command_id: String,
    pub command_name: String,
    pub order: i32,
}

pub struct CatalogCommandView {
    pub extension_id: Seq<char>,
    pub extension_name: Seq<char>,
    pub id: Seq<char>,
    pub title: Seq<char>,
    pub description: Option<Seq<char>>,
    pub command_name: Seq<char>,
}

pub struct CatalogActionView {
    pub extension_id: Seq<char>,
    pub extension_name: Seq<char>,
    pub id: Seq<char>,
    pub title: Seq<char>,
    pub description: Option<Seq<char>>,
    pub command_id: Seq<char>,
    pub command_name: Seq<char>,
    pub order: i32,
}

impl View for PiUiCommandContribution {
    type V = CatalogCommandView;

    open spec fn view(&self) -> CatalogCommandView {
        CatalogCommandView {
            extension_id: self.extension_id@,
            extension_name: self.extension_name@,
            id: self.id@,
            title: self.title@,
            description: opt_view(self.description),
            command_name: self.command_name@,
        }
    }
}

impl View for PiUiComposerActionContribution {
    type V = CatalogActionView;

    open spec fn view(&self) -> CatalogActionView {
        CatalogActionView {
            extension_id: self.extension_id@,
            extension_name: self.extension_name@,
            id: self.id@,
            title: self.title@,
            description: opt_view(self.description),
            command_id: self.command_id@,
            command_name: self.command_name@,
            order: self.order,
        }
    }
}

/// Commands order by extension id, then command id (byte-wise).
pub open spec fn command_lt(a: CatalogCommandView, b: CatalogCommandView) -> bool {
    let ea = encode_utf8(a.extension_id);
    let eb = encode_utf8(b.extension_id);
    bytes_lt(ea, eb) || (ea == eb && bytes_lt(encode_utf8(a.id), encode_utf8(b.id)))
}

/// Composer actions order by their order number, then extension id, then id.
pub open spec fn action_lt(a: CatalogActionView, b: CatalogActionView) -> bool {
    let ea = encode_utf8(a.extension_id);
    let eb = encode_utf8(b.extension_id);
    a.order < b.order || (a.order == b.order && (bytes_lt(ea, eb) || (ea == eb && bytes_lt(encode_utf8(a.id), encode_utf8(b.id)))))
}

pub open spec fn command_order() -> spec_fn(CatalogCommandView, CatalogCommandView) -> bool {
    |a: CatalogCommandView, b: CatalogCommandView| command_lt(a, b)
}

pub open spec fn action_order() -> spec_fn(CatalogActionView, CatalogActionView) -> bool {
    |a: CatalogActionView, b: CatalogActionView| action_lt(a, b)
}

proof fn lemma_pair_order(ea: Seq<u8>, eb: Seq<u8>, ec: Seq<u8>, ia: Seq<u8>, ib: Seq<u8>, ic: Seq<u8>)
    ensures
        !(bytes_lt(ea, ea) || (ea == ea && bytes_lt(ia, ia))),
        (bytes_lt(ea, eb) || (ea == eb && bytes_lt(ia, ib))) && (bytes_lt(eb, ec) || (eb == ec && bytes_lt(ib, ic)))
            ==> (bytes_lt(ea, ec) || (ea == ec && bytes_lt(ia, ic))),
        !(bytes_lt(ea, eb) || (ea == eb && bytes_lt(ia, ib))) && !(bytes_lt(eb, ec) || (eb == ec && bytes_lt(ib, ic)))
            ==> !(bytes_lt(ea, ec) || (ea == ec && bytes_lt(ia, ic))),
{
    lemma_bytes_lt_irreflexive(ea);
    lemma_bytes_lt_irreflexive(ia);
    lemma_bytes_lt_total(ea, eb);
    lemma_bytes_lt_total(eb, ec);
    lemma_bytes_lt_total(ea, ec);
    lemma_bytes_lt_total(ia, ib);
    lemma_bytes_lt_total(ib, ic);
    lemma_bytes_lt_total(ia, ic);
    if bytes_lt(ea, eb) && bytes_lt(eb, ec) {
        lemma_bytes_lt_transitive(ea, eb, ec);
    }
    if bytes_lt(ia, ib) && bytes_lt(ib, ic) {
        lemma_bytes_lt_transitive(ia, ib, ic);
    }
    if bytes_lt(ec, eb) && bytes_lt(eb, ea) {
        lemma_bytes_lt_transitive(ec, eb, ea);
    }
    if bytes_lt(ic, ib) && bytes_lt(ib, ia) {
        lemma_bytes_lt_transitive(ic, ib, ia);
    }
    if bytes_lt(ea, ec) && bytes_lt(ec, ea) {
        lemma_bytes_lt_transitive(ea, ec, ea);
        lemma_bytes_lt_irreflexive(ea);
    }
    if bytes_lt(ia, ic) && bytes_lt(ic, ia) {
        lemma_bytes_lt_transitive(ia, ic, ia);
    }
    if bytes_lt(ea, eb) && bytes_lt(eb, ea) {
        lemma_bytes_lt_transitive(ea, eb, ea);
    }
    if bytes_lt(eb, ec) && bytes_lt(ec, eb) {
        lemma_bytes_lt_transitive(eb, ec, eb);
        lemma_bytes_lt_irreflexive(eb);
    }
    if bytes_lt(ia, ib) && bytes_lt(ib, ia) {
        lemma_bytes_lt_transitive(ia, ib, ia);
    }
    if bytes_lt(ib, ic) && bytes_lt(ic, ib) {
        lemma_bytes_lt_transitive(ib, ic, ib);
        lemma_bytes_lt_irreflexive(ib);
    }
    if bytes_lt(ec, eb) && bytes_lt(eb, ea) {
        lemma_bytes_lt_transitive(ec, eb, ea);
    }
    if bytes_lt(ec, ea) && bytes_lt(ea, eb) {
        lemma_bytes_lt_transitive(ec, ea, eb);
    }
    if bytes_lt(eb, ec) && bytes_lt(ec, ea) {
        lemma_bytes_lt_transitive(eb, ec, ea);
    }
    if bytes_lt(ic, ia) && bytes_lt(ia, ib) {
        lemma_bytes_lt_transitive(ic, ia, ib);
    }
    if bytes_lt(ib, ic) && bytes_lt(ic, ia) {
        lemma_bytes_lt_transitive(ib, ic, ia);
    }
}

/// The catalog orders are strict weak orders.
pub proof fn lemma_catalog_orders()
    ensures
        strict_weak_order(command_order()),
        strict_weak_order(action_order()),
{
    assert forall|a: CatalogCommandView| !(#[trigger] command_order()(a, a)) by {
        lemma_pair_order(encode_utf8(a.extension_id), encode_utf8(a.extension_id), encode_utf8(a.extension_id), encode_utf8(a.id), encode_utf8(a.id), encode_utf8(a.id));
    }
    assert forall|a: CatalogCommandView, b: CatalogCommandView, c: CatalogCommandView|
        #[trigger] command_order()(a, b) && #[trigger] command_order()(b, c) implies command_order()(a, c) by {
        lemma_pair_order(encode_utf8(a.extension_id), encode_utf8(b.extension_id), encode_utf8(c.extension_id), encode_utf8(a.id), encode_utf8(b.id), encode_utf8(c.id));
    }
    assert forall|a: CatalogCommandView, b: CatalogCommandView, c: CatalogCommandView|
        !(#[trigger] command_order()(a, b)) && !(#[trigger] command_order()(b, c)) implies !command_order()(a, c) by {
        lemma_pair_order(encode_utf8(a.extension_id), encode_utf8(b.extension_id), encode_utf8(c.extension_id), encode_utf8(a.id), encode_utf8(b.id), encode_utf8(c.id));
    }
    assert forall|a: CatalogActionView| !(#[trigger] action_order()(a, a)) by {
        lemma_pair_order(encode_utf8(a.extension_id), encode_utf8(a.extension_id), encode_utf8(a.extension_id), encode_utf8(a.id), encode_utf8(a.id), encode_utf8(a.id));
    }
    assert forall|a: CatalogActionView, b: CatalogActionView, c: CatalogActionView|
        #[trigger] action_order()(a, b) && #[trigger] action_order()(b, c) implies action_order()(a, c) by {
        lemma_pair_order(encode_utf8(a.extension_id), encode_utf8(b.extension_id), encode_utf8(c.extension_id), encode_utf8(a.id), encode_utf8(b.id), encode_utf8(c.id));
    }
    assert forall|a: CatalogActionView, b: CatalogActionView, c: CatalogActionView|
        !(#[trigger] action_order()(a, b)) && !(#[trigger] action_order()(b, c)) implies !action_order()(a, c) by {
        lemma_pair_order(encode_utf8(a.extension_id), encode_utf8(b.extension_id), encode_utf8(c.extension_id), encode_utf8(a.id), encode_utf8(b.id), encode_utf8(c.id));
    }
}

pub open spec fn manifests_view(v: Seq<ValidatedManifest>) -> Seq<ManifestView> {
    v.map_values(|m: ValidatedManifest| m@)
}

/// The manifests this build supports, in order.
pub open spec fn supported_manifests(ms: Seq<ManifestView>) -> Seq<ManifestView>
    decreases ms.len(),
{
    if ms.len() == 0 {
        Seq::empty()
    } else {
        let r = supported_manifests(ms.drop_last());
        if supports_tier_1a_spec(ms.last()) { r.push(ms.last()) } else { r }
    }
}

/// How many of `ms` carry extension id `id`.
pub open spec fn id_count(ms: Seq<ManifestView>, id: Seq<char>) -> nat
    decreases ms.len(),
{
    if ms.len() == 0 {
        0
    } else {
        id_count(ms.drop_last(), id) + if ms.last().id == id { 1nat } else { 0nat }
    }
}

/// The manifests of `ms` whose extension id occurs exactly once in `all`:
/// a duplicated id fails closed rather than letting one shadow another.
pub open spec fn unique_of(all: Seq<ManifestView>, ms: Seq<ManifestView>) -> Seq<ManifestView>
    decreases ms.len(),
{
    if ms.len() == 0 {
        Seq::empty()
    } else {
        let r = unique_of(all, ms.drop_last());
        if id_count(all, ms.last().id) == 1 { r.push(ms.last()) } else { r }
    }
}

pub open spec fn command_entry(m: ManifestView, c: CommandView) -> CatalogCommandView {
    CatalogCommandView {
        extension_id: m.id,
        extension_name: m.name,
        id: c.id,
        title: c.title,
        description: c.description,
        command_name: c.pi_command,
    }
}

pub open spec fn command_entries(m: ManifestView, cs: Seq<CommandView>) -> Seq<CatalogCommandView>
    decreases cs.len(),
{
    if cs.len() == 0 {
        Seq::empty()
    } else {
        command_entries(m, cs.drop_last()).push(command_entry(m, cs.last()))
    }
}

/// The Pi command name of the last command with id `id`.
pub open spec fn command_name_for(cs: Seq<CommandView>, id: Seq<char>) -> Option<Seq<char>>
    decreases cs.len(),
{
    if cs.len() == 0 {
        None
    } else if cs.last().id == id {
        Some(cs.last().pi_command)
    } else {
        command_name_for(cs.drop_last(), id)
    }
}

/// The composer actions of `m` whose command it projects, each with that
/// command's Pi command name.
pub open spec fn action_entries(m: ManifestView, acts: Seq<ActionView>) -> Seq<CatalogActionView>
    decreases acts.len(),
{
    if acts.len() == 0 {
        Seq::empty()
    } else {
        let r = action_entries(m, acts.drop_last());
        let a = acts.last();
        match command_name_for(m.commands, a.command_id) {
            Some(name) => r.push(CatalogActionView {
                extension_id: m.id,
                extension_name: m.name,
                id: a.id,
                title: a.title,
                description: a.description,
                command_id: a.command_id,
                command_name: name,
                order: a.order,
            }),
            None => r,
        }
    }
}

pub open spec fn all_command_entries(ms: Seq<ManifestView>) -> Seq<CatalogCommandView>
    decreases ms.len(),
{
    if ms.len() == 0 {
        Seq::empty()
    } else {
        all_command_entries(ms.drop_last()) + command_entries(ms.last(), ms.last().commands)
    }
}

pub open spec fn all_action_entries(ms: Seq<ManifestView>) -> Seq<CatalogActionView>
    decreases ms.len(),
{
    if ms.len() == 0 {
        Seq::empty()
    } else {
        all_action_entries(ms.drop_last()) + action_entries(ms.last(), ms.last().composer_actions)
    }
}

/// The catalog of validated manifests: those this build supports and whose
/// id is not duplicated among them contribute their commands and actions,
/// each list stably sorted.
pub open spec fn catalog_spec(ms: Seq<ManifestView>) -> (Seq<CatalogCommandView>, Seq<CatalogActionView>) {
    let supported = supported_manifests(ms);
    let kept = unique_of(supported, supported);
    (sort_by_spec(all_command_entries(kept), command_order()), sort_by_spec(all_action_entries(kept), action_order()))
}

pub open spec fn catalog_commands_view(v: Seq<PiUiCommandContribution>) -> Seq<CatalogCommandView> {
    v.map_values(|c: PiUiCommandContribution| c@)
}

pub open spec fn catalog_actions_view(v: Seq<PiUiComposerActionContribution>) -> Seq<CatalogActionView> {
    v.map_values(|a: PiUiComposerActionContribution| a@)
}

fn command_less(a: &PiUiCommandContribution, b: &PiUiCommandContribution) -> (r: bool)
    ensures
        r == command_lt(a@, b@),
{
    let ea = a.extension_id.as_str().as_bytes();
    let eb = b.extension_id.as_str().as_bytes();
    if bytes_less(ea, eb) {
        return true;
    }
    bytes_equal(ea, eb) && bytes_less(a.id.as_str().as_bytes(), b.id.as_str().as_bytes())
}

fn action_less(a: &PiUiComposerActionContribution, b: &PiUiComposerActionContribution) -> (r: bool)
    ensures
        r == action_lt(a@, b@),
{
    if a.order != b.order {
        return a.order < b.order;
    }
    let ea = a.extension_id.as_str().as_bytes();
    let eb = b.extension_id.as_str().as_bytes();
    if bytes_less(ea, eb) {
        return true;
    }
    bytes_equal(ea, eb) && bytes_less(a.id.as_str().as_bytes(), b.id.as_str().as_bytes())
}

fn insert_command(out: &mut Vec<PiUiCommandContribution>, x: PiUiCommandContribution)
    ensures
        catalog_commands_view(final(out)@) == insert_by(catalog_commands_view(old(out)@), x@, command_order()),
{
    let ghost v = catalog_commands_view(out@);
    let mut pos = out.len();
    assert(v.take(pos as int) =~= v);
    while pos > 0 && command_less(&x, &out[pos - 1])
        invariant
            v == catalog_commands_view(out@),
            pos <= out@.len(),
            insert_pos(v, x@, command_order()) == insert_pos(v.take(pos as int), x@, command_order()),
        decreases pos,
    {
        assert(v.take(pos as int).drop_last() =~= v.take(pos - 1));
        assert(v.take(pos as int).last() == out@[pos - 1]@);
        pos = pos - 1;
    }
    if pos > 0 {
        assert(v.take(pos as int).last() == out@[pos - 1]@);
    }
    out.insert(pos, x);
    assert(catalog_commands_view(out@) =~= v.insert(pos as int, x@));
}

fn insert_action(out: &mut Vec<PiUiComposerActionContribution>, x: PiUiComposerActionContribution)
    ensures
        catalog_actions_view(final(out)@) == insert_by(catalog_actions_view(old(out)@), x@, action_order()),
{
    let ghost v = catalog_actions_view(out@);
    let mut pos = out.len();
    assert(v.take(pos as int) =~= v);
    while pos > 0 && action_less(&x, &out[pos - 1])
        invariant
            v == catalog_actions_view(out@),
            pos <= out@.len(),
            insert_pos(v, x@, action_order()) == insert_pos(v.take(pos as int), x@, action_order()),
        decreases pos,
    {
        assert(v.take(pos as int).drop_last() =~= v.take(pos - 1));
        assert(v.take(pos as int).last() == out@[pos - 1]@);
        pos = pos - 1;
    }
    if pos > 0 {
        assert(v.take(pos as int).last() == out@[pos - 1]@);
    }
    out.insert(pos, x);
    assert(catalog_actions_view(out@) =~= v.insert(pos as int, x@));
}

fn sort_commands(v: Vec<PiUiCommandContribution>) -> (r: Vec<PiUiCommandContribution>)
    ensures
        catalog_commands_view(r@) == sort_by_spec(catalog_commands_view(v@), command_order()),
{
    let ghost input = catalog_commands_view(v@);
    let mut out: Vec<PiUiCommandContribution> = Vec::new();
    assert(catalog_commands_view(out@) =~= sort_by_spec(input.take(0), command_order()));
    for x in it: v.into_iter()
        invariant
            input == catalog_commands_view(it.seq()),
            it.index() <= input.len(),
            catalog_commands_view(out@) == sort_by_spec(input.take(it.index() as int), command_order()),
    {
        let ghost k = it.index() as int;
        assert(input.take(k + 1).drop_last() =~= input.take(k));
        assert(input.take(k + 1).last() == x@);
        insert_command(&mut out, x);
    }
    assert(input.take(input.len() as int) =~= input);
    out
}

fn sort_actions(v: Vec<PiUiComposerActionContribution>) -> (r: Vec<PiUiComposerActionContribution>)
    ensures
        catalog_actions_view(r@) == sort_by_spec(catalog_actions_view(v@), action_order()),
{
    let ghost input = catalog_actions_view(v@);
    let mut out: Vec<PiUiComposerActionContribution> = Vec::new();
    assert(catalog_actions_view(out@) =~= sort_by_spec(input.take(0), action_order()));
    for x in it: v.into_iter()
        invariant
            input == catalog_actions_view(it.seq()),
            it.index() <= input.len(),
            catalog_actions_view(out@) == sort_by_spec(input.take(it.index() as int), action_order()),
    {
        let ghost k = it.index() as int;
        assert(input.take(k + 1).drop_last() =~= input.take(k));
        assert(input.take(k + 1).last() == x@);
        insert_action(&mut out, x);
    }
    assert(input.take(input.len() as int) =~= input);
    out
}

fn count_id(ms: &Vec<ValidatedManifest>, id: &str) -> (r: usize)
    ensures
        r as nat == id_count(manifests_view(ms@), id@),
{
    let ghost mv = manifests_view(ms@);
    let mut n: usize = 0;
    let mut i: usize = 0;
    assert(mv.take(0) =~= Seq::<ManifestView>::empty());
    while i < ms.len()
        invariant
            mv == manifests_view(ms@),
            i <= ms@.len(),
            n as nat == id_count(mv.take(i as int), id@),
            n <= i,
        decreases ms.len() - i,
    {
        assert(mv.take(i + 1).drop_last() =~= mv.take(i as int));
        assert(mv.take(i + 1).last() == ms@[i as int]@);
        if str_eq(ms[i].id.as_str(), id) {
            n = n + 1;
        }
        i = i + 1;
    }
    assert(mv.take(ms@.len() as int) =~= mv);
    n
}

fn command_name_of(commands: &Vec<CommandContribution>, id: &str) -> (r: Option<String>)
    ensures
        opt_view(r) == command_name_for(commands_view(commands@), id@),
{
    let ghost cv = commands_view(commands@);
    let mut i = commands.len();
    assert(cv.take(i as int) =~= cv);
    while i > 0
        invariant
            cv == commands_view(commands@),
            i <= commands@.len(),
            command_name_for(cv, id@) == command_name_for(cv.take(i as int), id@),
        decreases i,
    {
        assert(cv.take(i as int).drop_last() =~= cv.take(i - 1));
        assert(cv.take(i as int).last() == commands@[i - 1]@);
        if str_eq(commands[i - 1].id.as_str(), id) {
            return Some(commands[i - 1].pi_command.clone());
        }
        i = i - 1;
    }
    None
}

fn push_entries(
    m: &ValidatedManifest,
    commands: &mut Vec<PiUiCommandContribution>,
    actions: &mut Vec<PiUiComposerActionContribution>,
)
    ensures
        catalog_commands_view(final(commands)@) == catalog_commands_view(old(commands)@) + command_entries(m@, m@.commands),
        catalog_actions_view(final(actions)@) == catalog_actions_view(old(actions)@) + action_entries(m@, m@.composer_actions),
{
    let ghost mv = m@;
    let ghost c0 = catalog_commands_view(commands@);
    let ghost a0 = catalog_actions_view(actions@);
    let mut i: usize = 0;
    assert(mv.commands.take(0) =~= Seq::<CommandView>::empty());
    assert(c0 + command_entries(mv, mv.commands.take(0)) =~= c0);
    while i < m.commands.len()
        invariant
            mv == m@,
            i <= m.commands@.len(),
            catalog_commands_view(commands@) == c0 + command_entries(mv, mv.commands.take(i as int)),
        decreases m.commands.len() - i,
    {
        let c = &m.commands[i];
        let ghost before = catalog_commands_view(commands@);
        commands.push(PiUiCommandContribution {
            extension_id: m.id.clone(),
            extension_name: m.name.clone(),
            id: c.id.clone(),
            title: c.title.clone(),
            description: match &c.description {
                Some(d) => Some(d.clone()),
                None => None,
            },
            command_name: c.pi_command.clone(),
        });
        proof {
            assert(mv.commands.take(i + 1).drop_last() =~= mv.commands.take(i as int));
            assert(mv.commands.take(i + 1).last() == c@);
            assert(catalog_commands_view(commands@) =~= before.push(command_entry(mv, c@)));
        }
        i = i + 1;
    }
    assert(mv.commands.take(m.commands@.len() as int) =~= mv.commands);
    let mut k: usize = 0;
    assert(mv.composer_actions.take(0) =~= Seq::<ActionView>::empty());
    assert(a0 + action_entries(mv, mv.composer_actions.take(0)) =~= a0);
    while k < m.composer_actions.len()
        invariant
            mv == m@,
            k <= m.composer_actions@.len(),
            catalog_actions_view(actions@) == a0 + action_entries(mv, mv.composer_actions.take(k as int)),
        decreases m.composer_actions.len() - k,
    {
        let a = &m.composer_actions[k];
        let ghost before = catalog_actions_view(actions@);
        proof {
            assert(mv.composer_actions.take(k + 1).drop_last() =~= mv.composer_actions.take(k as int));
            assert(mv.composer_actions.take(k + 1).last() == a@);
        }
        match command_name_of(&m.commands, a.command_id.as_str()) {
            Some(name) => {
                actions.push(PiUiComposerActionContribution {
                    extension_id: m.id.clone(),
                    extension_name: m.name.clone(),
                    id: a.id.clone(),
                    title: a.title.clone(),
                    description: match &a.description {
                        Some(d) => Some(d.clone()),
                        None => None,
                    },
                    command_id: a.command_id.clone(),
                    command_name: name,
                    order: a.order,
                });
                assert(catalog_actions_view(actions@) =~= before.push(actions@.last()@));
            },
            None => {},
        }
        k = k + 1;
    }
    assert(mv.composer_actions.take(m.composer_actions@.len() as int) =~= mv.composer_actions);
}

/// Builds the contribution catalog from validated manifests: unsupported
/// manifests degrade to backend-only, a duplicated extension id fails closed
/// for every manifest that carries it, and both lists come out stably
/// sorted.
pub fn project_manifests(manifests: Vec<ValidatedManifest>) -> (r: PiUiContributionCatalog)
    ensures
        (catalog_commands_view(r.commands@), catalog_actions_view(r.composer_actions@)) == catalog_spec(manifests_view(manifests@)),
{
    let ghost input = manifests_view(manifests@);
    let mut supported: Vec<ValidatedManifest> = Vec::new();
    assert(manifests_view(supported@) =~= supported_manifests(input.take(0)));
    for m in it: manifests.into_iter()
        invariant
            input == manifests_view(it.seq()),
            it.index() <= input.len(),
            manifests_view(supported@) == supported_manifests(input.take(it.index() as int)),
    {
        let ghost k = it.index() as int;
        assert(input.take(k + 1).drop_last() =~= input.take(k));
        assert(input.take(k + 1).last() == m@);
        let ghost before = manifests_view(supported@);
        if supports_current_tier_1a(&m) {
            supported.push(m);
            assert(manifests_view(supported@) =~= before.push(supported@.last()@));
        }
    }
    assert(input.take(input.len() as int) =~= input);
    let ghost sv = manifests_view(supported@);
    let mut commands: Vec<PiUiCommandContribution> = Vec::new();
    let mut actions: Vec<PiUiComposerActionContribution> = Vec::new();
    let mut i: usize = 0;
    assert(sv.take(0) =~= Seq::<ManifestView>::empty());
    assert(catalog_commands_view(commands@) =~= all_command_entries(unique_of(sv, sv.take(0))));
    assert(catalog_actions_view(actions@) =~= all_action_entries(unique_of(sv, sv.take(0))));
    while i < supported.len()
        invariant
            sv == manifests_view(supported@),
            i <= supported@.len(),
            catalog_commands_view(commands@) == all_command_entries(unique_of(sv, sv.take(i as int))),
            catalog_actions_view(actions@) == all_action_entries(unique_of(sv, sv.take(i as int))),
        decreases supported.len() - i,
    {
        let m = &supported[i];
        assert(sv.take(i + 1).drop_last() =~= sv.take(i as int));
        assert(sv.take(i + 1).last() == m@);
        let ghost u = unique_of(sv, sv.take(i as int));
        if count_id(&supported, m.id.as_str()) == 1 {
            push_entries(m, &mut commands, &mut actions);
            assert(unique_of(sv, sv.take(i + 1)) == u.push(m@));
            assert(u.push(m@).drop_last() =~= u);
            assert(u.push(m@).last() == m@);
        } else {
            assert(unique_of(sv, sv.take(i + 1)) == u);
        }
        i = i + 1;
    }
    assert(sv.take(sv.len() as int) =~= sv);
    PiUiContributionCatalog { commands: sort_commands(commands), composer_actions: sort_actions(actions) }
}

/// The catalog's commands and composer actions are each in order, whatever
/// the manifests.
pub proof fn lemma_catalog_sorted(ms: Seq<ManifestView>)
    ensures
        sorted_by(catalog_spec(ms).0, command_order()),
        sorted_by(catalog_spec(ms).1, action_order()),
{
    lemma_catalog_orders();
    let supported = supported_manifests(ms);
    let kept = unique_of(supported, supported);
    lemma_sort_by_sorted(all_command_entries(kept), command_order());
    lemma_sort_by_sorted(all_action_entries(kept), action_order());
}

/// The package roots to inspect: enabled extensions from packages that have
/// a root, each root once, from at most `MAX_MANIFEST_PACKAGES` packages.
pub open spec fn package_roots_spec(rs: Seq<ExtensionResource>) -> Seq<Seq<char>>
    decreases rs.len(),
{
    if rs.len() == 0 {
        Seq::empty()
    } else {
        let prev = package_roots_spec(rs.drop_last());
        let r = rs.last();
        if prev.len() >= MAX_MANIFEST_PACKAGES || !r.enabled || r.origin != ExtensionOrigin::Package {
            prev
        } else {
            match r.package_root {
                Some(root) => if prev.contains(root@) { prev } else { prev.push(root@) },
                None => prev,
            }
        }
    }
}

pub fn package_manifest_roots(resources: &[ExtensionResource]) -> (r: Vec<String>)
    ensures
        r@.map_values(|f: String| f@) == package_roots_spec(resources@),
{
    let mut roots: Vec<String> = Vec::new();
    let mut i: usize = 0;
    assert(resources@.take(0) =~= Seq::<ExtensionResource>::empty());
    while i < resources.len()
        invariant
            i <= resources@.len(),
            roots@.map_values(|f: String| f@) == package_roots_spec(resources@.take(i as int)),
        decreases resources.len() - i,
    {
        assert(resources@.take(i + 1).drop_last() =~= resources@.take(i as int));
        assert(resources@.take(i + 1).last() == resources@[i as int]);
        let r = &resources[i];
        if roots.len() < MAX_MANIFEST_PACKAGES && r.enabled && r.origin == ExtensionOrigin::Package {
            match &r.package_root {
                Some(root) => {
                    if !crate::extensions::contains_string(&roots, root.as_str()) {
                        let ghost before = roots@;
                        roots.push(root.clone());
                        assert(roots@.map_values(|f: String| f@) =~= before.map_values(|f: String| f@).push(root@));
                    }
                },
                None => {},
            }
        }
        i = i + 1;
    }
    assert(resources@.take(resources@.len() as int) =~= resources@);
    roots
}

} // verus!
