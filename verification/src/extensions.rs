//! Read-only validation of declarative PiUI extension manifests.
//!
//! Validation inspects the parsed manifest and the outcome of resolving its
//! entrypoints; it never loads a module, runs a script or grants a
//! permission. Diagnostics carry only a fixed code and message, never a
//! manifest value or a path.
use vstd::prelude::*;
use crate::json::{
    JsonValue, jget, jstr, jarray, jobject, fields_get, deref, ref_matches, str_view, get, as_str, as_array,
    as_object, parse_json_bytes, serde_json_from_slice,
};
use crate::text::{str_eq, str_chars, split_on, split_str, opt_view, is_control, is_control_char, string_from_range};
use crate::redact::replace_char;
use crate::assoc::keys_distinct;
use vstd::utf8::encode_utf8;

verus! {

broadcast use vstd::slice::group_slice_axioms;

/// Largest manifest accepted, in bytes.
pub const MAX_MANIFEST_BYTES: usize = 1048576;
pub const MAX_PROJECTED_CONTRIBUTIONS: usize = 128;
pub const MAX_TITLE_CHARS: usize = 100;
pub const MAX_DESCRIPTION_CHARS: usize = 1000;
pub const DEFAULT_COMPOSER_ACTION_ORDER: i32 = 200;

/// Where a package comes from. Validity never makes a package trusted.
#[derive(Clone, Copy, Debug, PartialEq, Eq, Structural)]
pub enum PackageSource {
    TrustedInstalled,
    ProjectLocal,
    Local,
    Untrusted,
}

/// Stable, payload-safe validation codes.
#[derive(Clone, Copy, Debug, PartialEq, Eq, Structural)]
pub enum DiagnosticCode {
    ManifestReadFailed,
    ManifestTooLarge,
    ManifestJsonInvalid,
    SchemaUnavailable,
    SchemaInvalid,
    PackageRootUnavailable,
    ContributionIdNamespace,
    ContributionIdDuplicate,
    EntrypointPathInvalid,
    EntrypointAdsComponent,
    EntrypointReservedDevice,
    EntrypointMissing,
    EntrypointEscapesPackage,
    RichViewPermissionRequired,
    RichViewEntrypointRequired,
    ShellSourceRejected,
    ContributionProjectionInvalid,
}

pub open spec fn code_name(c: DiagnosticCode) -> Seq<char> {
    match c {
        DiagnosticCode::ManifestReadFailed => "MANIFEST_READ_FAILED"@,
        DiagnosticCode::ManifestTooLarge => "MANIFEST_TOO_LARGE"@,
        DiagnosticCode::ManifestJsonInvalid => "MANIFEST_JSON_INVALID"@,
        DiagnosticCode::SchemaUnavailable => "SCHEMA_UNAVAILABLE"@,
        DiagnosticCode::SchemaInvalid => "SCHEMA_INVALID"@,
        DiagnosticCode::PackageRootUnavailable => "PACKAGE_ROOT_UNAVAILABLE"@,
        DiagnosticCode::ContributionIdNamespace => "CONTRIBUTION_ID_NAMESPACE"@,
        DiagnosticCode::ContributionIdDuplicate => "CONTRIBUTION_ID_DUPLICATE"@,
        DiagnosticCode::EntrypointPathInvalid => "ENTRYPOINT_PATH_INVALID"@,
        DiagnosticCode::EntrypointAdsComponent => "ENTRYPOINT_ADS_COMPONENT"@,
        DiagnosticCode::EntrypointReservedDevice => "ENTRYPOINT_RESERVED_DEVICE"@,
        DiagnosticCode::EntrypointMissing => "ENTRYPOINT_MISSING"@,
        DiagnosticCode::EntrypointEscapesPackage => "ENTRYPOINT_ESCAPES_PACKAGE"@,
        DiagnosticCode::RichViewPermissionRequired => "RICH_VIEW_PERMISSION_REQUIRED"@,
        DiagnosticCode::RichViewEntrypointRequired => "RICH_VIEW_ENTRYPOINT_REQUIRED"@,
        DiagnosticCode::ShellSourceRejected => "SHELL_SOURCE_REJECTED"@,
        DiagnosticCode::ContributionProjectionInvalid => "CONTRIBUTION_PROJECTION_INVALID"@,
    }
}

impl DiagnosticCode {
    pub fn as_str(self) -> (r: &'static str)
        ensures
            r@ == code_name(self),
    {
        match self {
            DiagnosticCode::ManifestReadFailed => "MANIFEST_READ_FAILED",
            DiagnosticCode::ManifestTooLarge => "MANIFEST_TOO_LARGE",
            DiagnosticCode::ManifestJsonInvalid => "MANIFEST_JSON_INVALID",
            DiagnosticCode::SchemaUnavailable => "SCHEMA_UNAVAILABLE",
            DiagnosticCode::SchemaInvalid => "SCHEMA_INVALID",
            DiagnosticCode::PackageRootUnavailable => "PACKAGE_ROOT_UNAVAILABLE",
            DiagnosticCode::ContributionIdNamespace => "CONTRIBUTION_ID_NAMESPACE",
            DiagnosticCode::ContributionIdDuplicate => "CONTRIBUTION_ID_DUPLICATE",
            DiagnosticCode::EntrypointPathInvalid => "ENTRYPOINT_PATH_INVALID",
            DiagnosticCode::EntrypointAdsComponent => "ENTRYPOINT_ADS_COMPONENT",
            DiagnosticCode::EntrypointReservedDevice => "ENTRYPOINT_RESERVED_DEVICE",
            DiagnosticCode::EntrypointMissing => "ENTRYPOINT_MISSING",
            DiagnosticCode::EntrypointEscapesPackage => "ENTRYPOINT_ESCAPES_PACKAGE",
            DiagnosticCode::RichViewPermissionRequired => "RICH_VIEW_PERMISSION_REQUIRED",
            DiagnosticCode::RichViewEntrypointRequired => "RICH_VIEW_ENTRYPOINT_REQUIRED",
            DiagnosticCode::ShellSourceRejected => "SHELL_SOURCE_REJECTED",
            DiagnosticCode::ContributionProjectionInvalid => "CONTRIBUTION_PROJECTION_INVALID",
        }
    }
}

/// Holds neither a manifest value, an entrypoint name nor a path.
#[derive(Clone, Debug, PartialEq, Eq)]
pub struct ManifestDiagnostic {
    pub code: DiagnosticCode,
    pub message: &'static str,
}

pub open spec fn code_message(c: DiagnosticCode) -> Seq<char> {
    match c {
        DiagnosticCode::ManifestReadFailed => "The manifest could not be read."@,
        DiagnosticCode::ManifestTooLarge => "The manifest exceeds the safe size limit."@,
        DiagnosticCode::ManifestJsonInvalid => "The manifest is not valid JSON."@,
        DiagnosticCode::SchemaUnavailable => "The manifest schema is unavailable."@,
        DiagnosticCode::SchemaInvalid => "The manifest does not match the PiUI schema."@,
        DiagnosticCode::PackageRootUnavailable => "The package root is unavailable."@,
        DiagnosticCode::ContributionIdNamespace => "A contribution ID is outside the extension namespace."@,
        DiagnosticCode::ContributionIdDuplicate => "A contribution ID is duplicated."@,
        DiagnosticCode::EntrypointPathInvalid => "An entrypoint path is not package-relative."@,
        DiagnosticCode::EntrypointAdsComponent => "An entrypoint path contains an alternate data stream component."@,
        DiagnosticCode::EntrypointReservedDevice => "An entrypoint path contains a reserved device name."@,
        DiagnosticCode::EntrypointMissing => "A declared entrypoint is unavailable."@,
        DiagnosticCode::EntrypointEscapesPackage => "A declared entrypoint escapes the package root."@,
        DiagnosticCode::RichViewPermissionRequired => "Rich views require the ui.richView permission request."@,
        DiagnosticCode::RichViewEntrypointRequired => "A rich contribution requires a declared view entrypoint."@,
        DiagnosticCode::ShellSourceRejected => "Shell contributions are not allowed for this package source."@,
        DiagnosticCode::ContributionProjectionInvalid => "The manifest contains unsupported declarative UI contributions."@,
    }
}

/// The diagnostic for `code`, with its fixed message.
pub fn diagnostic(code: DiagnosticCode) -> (r: ManifestDiagnostic)
    ensures
        r.code == code,
        r.message@ == code_message(code),
{
    let message = match code {
        DiagnosticCode::ManifestReadFailed => "The manifest could not be read.",
        DiagnosticCode::ManifestTooLarge => "The manifest exceeds the safe size limit.",
        DiagnosticCode::ManifestJsonInvalid => "The manifest is not valid JSON.",
        DiagnosticCode::SchemaUnavailable => "The manifest schema is unavailable.",
        DiagnosticCode::SchemaInvalid => "The manifest does not match the PiUI schema.",
        DiagnosticCode::PackageRootUnavailable => "The package root is unavailable.",
        DiagnosticCode::ContributionIdNamespace => "A contribution ID is outside the extension namespace.",
        DiagnosticCode::ContributionIdDuplicate => "A contribution ID is duplicated.",
        DiagnosticCode::EntrypointPathInvalid => "An entrypoint path is not package-relative.",
        DiagnosticCode::EntrypointAdsComponent => "An entrypoint path contains an alternate data stream component.",
        DiagnosticCode::EntrypointReservedDevice => "An entrypoint path contains a reserved device name.",
        DiagnosticCode::EntrypointMissing => "A declared entrypoint is unavailable.",
        DiagnosticCode::EntrypointEscapesPackage => "A declared entrypoint escapes the package root.",
        DiagnosticCode::RichViewPermissionRequired => "Rich views require the ui.richView permission request.",
        DiagnosticCode::RichViewEntrypointRequired => "A rich contribution requires a declared view entrypoint.",
        DiagnosticCode::ShellSourceRejected => "Shell contributions are not allowed for this package source.",
        DiagnosticCode::ContributionProjectionInvalid => "The manifest contains unsupported declarative UI contributions.",
    };
    ManifestDiagnostic { code, message }
}

/// The codes of a diagnostic list, in order.
pub open spec fn codes_of(v: Seq<ManifestDiagnostic>) -> Seq<DiagnosticCode> {
    v.map_values(|d: ManifestDiagnostic| d.code)
}

/// Every diagnostic carries its code's fixed message.
pub open spec fn messages_fixed(v: Seq<ManifestDiagnostic>) -> bool {
    forall|i: int| 0 <= i < v.len() ==> (#[trigger] v[i]).message@ == code_message(v[i].code)
}

/// Adds `c` unless it is already listed: each code is reported once, in
/// order of first occurrence.
pub open spec fn push_code(cs: Seq<DiagnosticCode>, c: DiagnosticCode) -> Seq<DiagnosticCode> {
    if cs.contains(c) {
        cs
    } else {
        cs.push(c)
    }
}

pub fn push(diagnostics: &mut Vec<ManifestDiagnostic>, code: DiagnosticCode)
    requires
        messages_fixed(old(diagnostics)@),
    ensures
        messages_fixed(final(diagnostics)@),
        codes_of(final(diagnostics)@) == push_code(codes_of(old(diagnostics)@), code),
{
    let mut i: usize = 0;
    while i < diagnostics.len()
        invariant
            i <= diagnostics@.len(),
            messages_fixed(diagnostics@),
            forall|j: int| 0 <= j < i ==> diagnostics@[j].code != code,
        decreases diagnostics.len() - i,
    {
        if diagnostics[i].code == code {
            assert(codes_of(diagnostics@)[i as int] == code);
            return;
        }
        i = i + 1;
    }
    assert(!codes_of(diagnostics@).contains(code)) by {
        if codes_of(diagnostics@).contains(code) {
            let j = choose|j: int| 0 <= j < codes_of(diagnostics@).len() && codes_of(diagnostics@)[j] == code;
            assert(diagnostics@[j].code == code);
        }
    }
    let ghost before = diagnostics@;
    diagnostics.push(diagnostic(code));
    assert(codes_of(diagnostics@) =~= codes_of(before).push(code));
}

/// Requested permissions are recorded, never granted: the manifest carries
/// no field of granted permissions.
#[derive(Clone, Debug, PartialEq, Eq)]
pub struct ValidatedManifest {
    pub id: String,
    pub name: String,
    pub commands: Vec<CommandContribution>,
    pub composer_actions: Vec<ComposerActionContribution>,
    pub piui_engine_range: String,
    pub pi_engine_range: Option<String>,
    pub host_api_engine_range: Option<String>,
    pub has_required_features: bool,
    /// Distinct permission names, in order of first request.
    pub requested_permissions: Vec<String>,
    pub source: PackageSource,
}

/// A display-safe command whose Pi command name was validated.
#[derive(Clone, Debug, PartialEq, Eq)]
pub struct CommandContribution {
    pub id: String,
    pub title: String,
    pub description: Option<String>,
    pub pi_command: String,
}

/// A display-safe composer action targeting a projected command.
#[derive(Clone, Debug, PartialEq, Eq)]
pub struct ComposerActionContribution {
    pub id: String,
    pub title: String,
    pub description: Option<String>,
    pub command_id: String,
    pub order: i32,
}

#[derive(Clone, Debug)]
pub struct ValidationReport {
    pub manifest: Option<ValidatedManifest>,
    pub diagnostics: Vec<ManifestDiagnostic>,
}

impl ValidationReport {
    pub fn is_valid(&self) -> (r: bool)
        ensures
            r == (self.manifest is Some && self.diagnostics@.len() == 0),
    {
        self.manifest.is_some() && self.diagnostics.len() == 0
    }
}

impl Default for ValidationReport {
    fn default() -> (r: Self)
        ensures
            r.manifest is None,
            r.diagnostics@.len() == 0,
    {
        ValidationReport { manifest: None, diagnostics: Vec::new() }
    }
}

/// The bundled schema could not be loaded.
#[derive(Clone, Copy, Debug, PartialEq, Eq, Structural)]
pub enum ValidatorInitError {
    SchemaUnavailable,
}

/// A report with no manifest and the one diagnostic `code`.
pub fn report(code: DiagnosticCode) -> (r: ValidationReport)
    ensures
        r.manifest is None,
        codes_of(r.diagnostics@) == seq![code],
        messages_fixed(r.diagnostics@),
{
    let mut diagnostics: Vec<ManifestDiagnostic> = Vec::new();
    diagnostics.push(diagnostic(code));
    assert(codes_of(diagnostics@) =~= seq![code]);
    ValidationReport { manifest: None, diagnostics }
}

// ---------------------------------------------------------------------------
// Text checks

pub open spec fn is_alpha_byte(b: u8) -> bool {
    (0x41 <= b && b <= 0x5a) || (0x61 <= b && b <= 0x7a)
}

pub open spec fn is_alnum_byte(b: u8) -> bool {
    is_alpha_byte(b) || (0x30 <= b && b <= 0x39)
}

/// `u8::is_ascii_whitespace`: space, tab, line feed, form feed, carriage return.
pub open spec fn is_ascii_ws_byte(b: u8) -> bool {
    b == 0x20 || b == 0x09 || b == 0x0a || b == 0x0c || b == 0x0d
}

/// An absolute path starts at byte `i`: a drive letter and separator, a
/// doubled slash or backslash, or a slash that does not follow a word
/// character and is followed by a non-space.
pub open spec fn absolute_path_at(b: Seq<u8>, i: int) -> bool {
    ||| i + 2 < b.len() && is_alpha_byte(b[i]) && b[i + 1] == 0x3a && (b[i + 2] == 0x2f || b[i + 2] == 0x5c)
    ||| i + 1 < b.len() && ((b[i] == 0x5c && b[i + 1] == 0x5c) || (b[i] == 0x2f && b[i + 1] == 0x2f))
    ||| b[i] == 0x2f && !(i > 0 && (is_alnum_byte(b[i - 1]) || b[i - 1] == 0x5f || b[i - 1] == 0x2d))
        && i + 1 < b.len() && !is_ascii_ws_byte(b[i + 1])
}

pub open spec fn has_absolute_path(b: Seq<u8>) -> bool {
    exists|i: int| 0 <= i < b.len() && #[trigger] absolute_path_at(b, i)
}

pub fn contains_absolute_path(value: &str) -> (r: bool)
    ensures
        r == has_absolute_path(encode_utf8(value@)),
{
    let bytes = value.as_bytes();
    let ghost b = bytes@;
    assert(b == encode_utf8(value@));
    let n = bytes.len();
    let mut index: usize = 0;
    while index < n
        invariant
            b == bytes@,
            b == encode_utf8(value@),
            n == b.len(),
            index <= n,
            forall|j: int| 0 <= j < index ==> !absolute_path_at(b, j),
        decreases n - index,
    {
        let c = bytes[index];
        if n - index > 2 && ((0x41 <= c && c <= 0x5a) || (0x61 <= c && c <= 0x7a)) && bytes[index + 1] == 0x3a
            && (bytes[index + 2] == 0x2f || bytes[index + 2] == 0x5c) {
            assert(absolute_path_at(b, index as int));
            return true;
        }
        if n - index > 1 && ((c == 0x5c && bytes[index + 1] == 0x5c) || (c == 0x2f && bytes[index + 1] == 0x2f)) {
            assert(absolute_path_at(b, index as int));
            return true;
        }
        let word_before = index > 0 && {
            let p = bytes[index - 1];
            (0x41 <= p && p <= 0x5a) || (0x61 <= p && p <= 0x7a) || (0x30 <= p && p <= 0x39) || p == 0x5f || p == 0x2d
        };
        if c == 0x2f && !word_before && n - index > 1 {
            let next = bytes[index + 1];
            if !(next == 0x20 || next == 0x09 || next == 0x0a || next == 0x0c || next == 0x0d) {
                assert(absolute_path_at(b, index as int));
                return true;
            }
        }
        index = index + 1;
    }
    false
}

/// Display text: no control character, at most `max_chars` characters, and
/// no absolute path.
pub open spec fn display_ok(s: Seq<char>, max_chars: nat) -> bool {
    &&& forall|i: int| 0 <= i < s.len() ==> !is_control_char(#[trigger] s[i])
    &&& s.len() <= max_chars
    &&& !has_absolute_path(encode_utf8(s))
}

pub fn display_text(value: &str, max_chars: usize) -> (r: Option<String>)
    ensures
        opt_view(r) == (if display_ok(value@, max_chars as nat) { Some(value@) } else { None::<Seq<char>> }),
{
    let chars = str_chars(value);
    let mut i: usize = 0;
    while i < chars.len()
        invariant
            chars@ == value@,
            i <= chars@.len(),
            forall|j: int| 0 <= j < i ==> !is_control_char(#[trigger] chars@[j]),
        decreases chars.len() - i,
    {
        if is_control(chars[i]) {
            return None;
        }
        i = i + 1;
    }
    if chars.len() > max_chars || contains_absolute_path(value) {
        return None;
    }
    Some(value.to_owned())
}

/// A Pi command name: 1 to 160 bytes of ASCII letters, digits, `-`, `_`,
/// `.` or `:`.
pub open spec fn safe_command_name(b: Seq<u8>) -> bool {
    &&& 0 < b.len() <= 160
    &&& forall|i: int| 0 <= i < b.len() ==> is_alnum_byte(#[trigger] b[i]) || b[i] == 0x2d || b[i] == 0x5f
        || b[i] == 0x2e || b[i] == 0x3a
}

pub fn is_safe_pi_command_name(name: &str) -> (r: bool)
    ensures
        r == safe_command_name(encode_utf8(name@)),
{
    let bytes = name.as_bytes();
    assert(bytes@ == encode_utf8(name@));
    assert(bytes.len() == bytes@.len());
    if bytes.len() == 0 || bytes.len() > 160 {
        return false;
    }
    let mut i: usize = 0;
    while i < bytes.len()
        invariant
            i <= bytes@.len(),
            bytes@ == encode_utf8(name@),
            forall|j: int| 0 <= j < i ==> is_alnum_byte(#[trigger] bytes@[j]) || bytes@[j] == 0x2d
                || bytes@[j] == 0x5f || bytes@[j] == 0x2e || bytes@[j] == 0x3a,
        decreases bytes.len() - i,
    {
        let c = bytes[i];
        if !((0x41 <= c && c <= 0x5a) || (0x61 <= c && c <= 0x7a) || (0x30 <= c && c <= 0x39) || c == 0x2d || c == 0x5f
            || c == 0x2e || c == 0x3a) {
            return false;
        }
        i = i + 1;
    }
    true
}

/// A compatibility range: no control character, at most 100 characters,
/// and only ASCII letters, digits and ` .<>=~^*|,-`.
pub open spec fn range_byte(c: u8) -> bool {
    is_alnum_byte(c) || c == 0x20 || c == 0x2e || c == 0x3c || c == 0x3e || c == 0x3d || c == 0x7e || c == 0x5e
        || c == 0x2a || c == 0x7c || c == 0x2c || c == 0x2d
}

pub open spec fn range_ok(s: Seq<char>) -> bool {
    &&& forall|i: int| 0 <= i < s.len() ==> !is_control_char(#[trigger] s[i])
    &&& s.len() <= 100
    &&& forall|i: int| 0 <= i < encode_utf8(s).len() ==> range_byte(#[trigger] encode_utf8(s)[i])
}

pub fn compatibility_range(value: &str) -> (r: Option<String>)
    ensures
        opt_view(r) == (if range_ok(value@) { Some(value@) } else { None::<Seq<char>> }),
{
    let chars = str_chars(value);
    let mut i: usize = 0;
    while i < chars.len()
        invariant
            chars@ == value@,
            i <= chars@.len(),
            forall|j: int| 0 <= j < i ==> !is_control_char(#[trigger] chars@[j]),
        decreases chars.len() - i,
    {
        if is_control(chars[i]) {
            return None;
        }
        i = i + 1;
    }
    if chars.len() > 100 {
        return None;
    }
    let bytes = value.as_bytes();
    assert(bytes@ == encode_utf8(value@));
    let mut k: usize = 0;
    while k < bytes.len()
        invariant
            bytes@ == encode_utf8(value@),
            k <= bytes@.len(),
            forall|j: int| 0 <= j < k ==> range_byte(#[trigger] bytes@[j]),
        decreases bytes.len() - k,
    {
        let c = bytes[k];
        if !((0x41 <= c && c <= 0x5a) || (0x61 <= c && c <= 0x7a) || (0x30 <= c && c <= 0x39) || c == 0x20 || c == 0x2e
            || c == 0x3c || c == 0x3e || c == 0x3d || c == 0x7e || c == 0x5e || c == 0x2a || c == 0x7c || c == 0x2c
            || c == 0x2d) {
            return None;
        }
        k = k + 1;
    }
    Some(value.to_owned())
}

// ---------------------------------------------------------------------------
// Entrypoint paths

/// `Path::components` of a Unix path yields only current-directory and
/// normal components: it is not empty, does not start at the root, and no
/// `/`-separated segment is `..`.
pub open spec fn lexically_relative(p: Seq<char>) -> bool {
    p.len() > 0 && p[0] != '/' && !split_on(p, '/').contains(".."@)
}

pub fn is_lexically_relative(path: &str) -> (r: bool)
    ensures
        r == lexically_relative(path@),
{
    let chars = str_chars(path);
    if chars.len() == 0 || chars[0] == '/' {
        return false;
    }
    let parts = split_str(path, '/');
    let ghost pv = parts@.map_values(|f: String| f@);
    proof {
        reveal_strlit("..");
    }
    let mut i: usize = 0;
    while i < parts.len()
        invariant
            pv == parts@.map_values(|f: String| f@),
            pv == split_on(path@, '/'),
            i <= parts@.len(),
            forall|j: int| 0 <= j < i ==> pv[j] != ".."@,
        decreases parts.len() - i,
    {
        if str_eq(parts[i].as_str(), "..") {
            assert(pv[i as int] == ".."@);
            return false;
        }
        i = i + 1;
    }
    assert(!pv.contains(".."@)) by {
        if pv.contains(".."@) {
            let j = choose|j: int| 0 <= j < pv.len() && pv[j] == ".."@;
            assert(pv[j] != ".."@);
        }
    }
    true
}

/// The non-empty parts of a sequence of path segments.
pub open spec fn nonempty_parts(parts: Seq<Seq<char>>) -> Seq<Seq<char>>
    decreases parts.len(),
{
    if parts.len() == 0 {
        Seq::empty()
    } else if parts.last().len() > 0 {
        nonempty_parts(parts.drop_last()).push(parts.last())
    } else {
        nonempty_parts(parts.drop_last())
    }
}

/// The components of a path under both separator styles, so a manifest
/// cannot become an escape once copied to Windows.
pub open spec fn portable_components(p: Seq<char>) -> Seq<Seq<char>> {
    nonempty_parts(split_on(replace_char(p, '\\', '/'), '/'))
}

pub fn portable_path_components(path: &str) -> (r: Vec<String>)
    ensures
        r@.map_values(|f: String| f@) == portable_components(path@),
{
    let chars = str_chars(path);
    let mut unified = String::new();
    let mut k: usize = 0;
    while k < chars.len()
        invariant
            chars@ == path@,
            k <= chars@.len(),
            unified@ == replace_char(chars@.take(k as int), '\\', '/'),
        decreases chars.len() - k,
    {
        let c = if chars[k] == '\\' { '/' } else { chars[k] };
        crate::text::string_push(&mut unified, c);
        assert(replace_char(chars@.take(k + 1), '\\', '/') =~= replace_char(chars@.take(k as int), '\\', '/').push(c));
        k = k + 1;
    }
    assert(chars@.take(chars@.len() as int) =~= chars@);
    let parts = split_str(unified.as_str(), '/');
    let ghost pv = parts@.map_values(|f: String| f@);
    let mut out: Vec<String> = Vec::new();
    let mut i: usize = 0;
    assert(pv.take(0) =~= Seq::<Seq<char>>::empty());
    while i < parts.len()
        invariant
            pv == parts@.map_values(|f: String| f@),
            i <= parts@.len(),
            out@.map_values(|f: String| f@) == nonempty_parts(pv.take(i as int)),
        decreases parts.len() - i,
    {
        let ghost before = out@;
        assert(pv.take(i + 1).drop_last() =~= pv.take(i as int));
        assert(pv.take(i + 1).last() == parts@[i as int]@);
        if !parts[i].as_str().is_empty() {
            out.push(parts[i].clone());
            assert(out@.map_values(|f: String| f@) =~= before.map_values(|f: String| f@).push(parts@[i as int]@));
        }
        i = i + 1;
    }
    assert(pv.take(pv.len() as int) =~= pv);
    out
}


/// Some component names an alternate data stream (holds a `:`).
pub open spec fn has_ads(p: Seq<char>) -> bool {
    exists|i: int| 0 <= i < portable_components(p).len() && (#[trigger] portable_components(p)[i]).contains(':')
}

fn has_char(s: &str, c: char) -> (r: bool)
    ensures
        r == s@.contains(c),
{
    let chars = str_chars(s);
    let mut i: usize = 0;
    while i < chars.len()
        invariant
            chars@ == s@,
            i <= chars@.len(),
            forall|j: int| 0 <= j < i ==> chars@[j] != c,
        decreases chars.len() - i,
    {
        if chars[i] == c {
            assert(s@[i as int] == c);
            return true;
        }
        i = i + 1;
    }
    false
}

pub fn has_ads_component(path: &str) -> (r: bool)
    ensures
        r == has_ads(path@),
{
    let parts = portable_path_components(path);
    let ghost pv = parts@.map_values(|f: String| f@);
    let mut i: usize = 0;
    while i < parts.len()
        invariant
            pv == parts@.map_values(|f: String| f@),
            pv == portable_components(path@),
            i <= parts@.len(),
            forall|j: int| 0 <= j < i ==> !(#[trigger] pv[j]).contains(':'),
        decreases parts.len() - i,
    {
        if has_char(parts[i].as_str(), ':') {
            assert(pv[i as int].contains(':'));
            return true;
        }
        i = i + 1;
    }
    false
}

/// `s` without trailing dots and spaces.
pub open spec fn trim_end_dots_spaces(s: Seq<char>) -> Seq<char>
    decreases s.len(),
{
    if s.len() > 0 && (s.last() == '.' || s.last() == ' ') {
        trim_end_dots_spaces(s.drop_last())
    } else {
        s
    }
}

/// The code of a character under `to_ascii_uppercase`.
pub open spec fn upper_code(c: char) -> u32 {
    if 'a' <= c && c <= 'z' {
        ((c as u32) - 32) as u32
    } else {
        c as u32
    }
}

/// `s` upper-cased (ASCII only) spells `target`.
pub open spec fn upper_is(s: Seq<char>, target: Seq<char>) -> bool {
    s.len() == target.len() && forall|i: int| 0 <= i < s.len() ==> upper_code(#[trigger] s[i]) == target[i] as u32
}

/// A numbered device digit: 1 to 9 or a superscript one, two or three.
pub open spec fn device_digit(c: char) -> bool {
    ('1' <= c && c <= '9') || c == '\u{b9}' || c == '\u{b2}' || c == '\u{b3}'
}

/// `s` upper-cased is `prefix` followed by one device digit.
pub open spec fn numbered_device(s: Seq<char>, prefix: Seq<char>) -> bool {
    s.len() == prefix.len() + 1 && upper_is(s.take(prefix.len() as int), prefix) && device_digit(s.last())
}

/// A component names a reserved Windows device: its stem (before the first
/// dot, after trailing dots and spaces are dropped) is `CON`, `PRN`, `AUX`,
/// `NUL`, or `COM` or `LPT` with a device digit, in any ASCII case.
pub open spec fn reserved_component(c: Seq<char>) -> bool {
    let stem = split_on(trim_end_dots_spaces(c), '.')[0];
    ||| upper_is(stem, "CON"@)
    ||| upper_is(stem, "PRN"@)
    ||| upper_is(stem, "AUX"@)
    ||| upper_is(stem, "NUL"@)
    ||| numbered_device(stem, "COM"@)
    ||| numbered_device(stem, "LPT"@)
}

pub open spec fn has_reserved_device(p: Seq<char>) -> bool {
    exists|i: int| 0 <= i < portable_components(p).len() && reserved_component(#[trigger] portable_components(p)[i])
}

fn upper_matches(s: &Vec<char>, target: &str) -> (r: bool)
    ensures
        r == upper_is(s@, target@),
{
    let t = str_chars(target);
    if s.len() != t.len() {
        return false;
    }
    let mut i: usize = 0;
    while i < s.len()
        invariant
            t@ == target@,
            s@.len() == t@.len(),
            i <= s@.len(),
            forall|j: int| 0 <= j < i ==> upper_code(#[trigger] s@[j]) == t@[j] as u32,
        decreases s.len() - i,
    {
        let c = s[i];
        let code: u32 = if 'a' <= c && c <= 'z' { (c as u32) - 32 } else { c as u32 };
        if code != t[i] as u32 {
            return false;
        }
        i = i + 1;
    }
    true
}

pub fn is_numbered_windows_device(component: &Vec<char>, prefix: &str) -> (r: bool)
    ensures
        r == numbered_device(component@, prefix@),
{
    let p = str_chars(prefix);
    if p.len() >= component.len() || component.len() - p.len() != 1 {
        return false;
    }
    let head = component_prefix(component, p.len());
    if !upper_matches(&head, prefix) {
        return false;
    }
    let c = component[component.len() - 1];
    ('1' <= c && c <= '9') || c == '\u{b9}' || c == '\u{b2}' || c == '\u{b3}'
}

fn component_prefix(s: &Vec<char>, n: usize) -> (r: Vec<char>)
    requires
        n <= s@.len(),
    ensures
        r@ == s@.take(n as int),
{
    let mut r: Vec<char> = Vec::new();
    let mut i: usize = 0;
    while i < n
        invariant
            i <= n <= s@.len(),
            r@ == s@.take(i as int),
        decreases n - i,
    {
        r.push(s[i]);
        assert(s@.take(i + 1) =~= s@.take(i as int).push(s@[i as int]));
        i = i + 1;
    }
    r
}

fn is_reserved_component(component: &str) -> (r: bool)
    ensures
        r == reserved_component(component@),
{
    let chars = str_chars(component);
    let mut end = chars.len();
    assert(chars@.take(end as int) =~= chars@);
    while end > 0 && (chars[end - 1] == '.' || chars[end - 1] == ' ')
        invariant
            chars@ == component@,
            end <= chars@.len(),
            trim_end_dots_spaces(component@) == trim_end_dots_spaces(chars@.take(end as int)),
        decreases end,
    {
        assert(chars@.take(end as int).drop_last() =~= chars@.take(end - 1));
        end = end - 1;
    }
    let ghost trimmed = chars@.take(end as int);
    assert(trim_end_dots_spaces(trimmed) == trimmed);
    let mut stop: usize = 0;
    while stop < end && chars[stop] != '.'
        invariant
            chars@ == component@,
            stop <= end <= chars@.len(),
            trimmed == chars@.take(end as int),
            forall|j: int| 0 <= j < stop ==> chars@[j] != '.',
        decreases end - stop,
    {
        stop = stop + 1;
    }
    let stem = component_prefix(&chars, stop);
    proof {
        assert forall|j: int| 0 <= j < stop implies trimmed[j] != '.' by {
            assert(trimmed[j] == chars@[j]);
        }
        if stop < end {
            assert(trimmed[stop as int] == chars@[stop as int]);
        }
        lemma_first_field(trimmed, stop as int);
        assert(trimmed.take(stop as int) =~= stem@);
    }
    upper_matches(&stem, "CON") || upper_matches(&stem, "PRN") || upper_matches(&stem, "AUX")
        || upper_matches(&stem, "NUL") || is_numbered_windows_device(&stem, "COM")
        || is_numbered_windows_device(&stem, "LPT")
}

/// The first `.`-separated field of `s` is its prefix before the first dot.
proof fn lemma_first_field(s: Seq<char>, k: int)
    requires
        0 <= k <= s.len(),
        forall|j: int| 0 <= j < k ==> s[j] != '.',
        k == s.len() || s[k] == '.',
    ensures
        split_on(s, '.')[0] == s.take(k),
    decreases s.len(),
{
    crate::text::lemma_split_on_nonempty(s, '.');
    if s.len() > k {
        lemma_first_field(s.drop_last(), k);
        crate::text::lemma_split_on_nonempty(s.drop_last(), '.');
        assert(s.drop_last().take(k) =~= s.take(k));
        if s.last() != '.' {
            lemma_sep_splits(s.drop_last(), k);
        }
    } else {
        assert(s.take(k) =~= s);
        lemma_no_sep_single(s);
    }
}

/// With no separator the split has the one field `s`.
proof fn lemma_no_sep_single(s: Seq<char>)
    requires
        forall|j: int| 0 <= j < s.len() ==> s[j] != '.',
    ensures
        split_on(s, '.') == seq![s],
    decreases s.len(),
{
    if s.len() > 0 {
        lemma_no_sep_single(s.drop_last());
        assert(s.drop_last().push(s.last()) =~= s);
        assert(seq![s.drop_last()].update(0, s.drop_last().push(s.last())) =~= seq![s]);
    } else {
        assert(s =~= Seq::<char>::empty());
        assert(seq![Seq::<char>::empty()] =~= seq![s]);
    }
}

/// A separator at `k` makes at least two fields.
proof fn lemma_sep_splits(s: Seq<char>, k: int)
    requires
        0 <= k < s.len(),
        s[k] == '.',
    ensures
        split_on(s, '.').len() >= 2,
    decreases s.len(),
{
    crate::text::lemma_split_on_nonempty(s.drop_last(), '.');
    if k < s.len() - 1 {
        lemma_sep_splits(s.drop_last(), k);
    }
}

pub fn has_windows_reserved_device_component(path: &str) -> (r: bool)
    ensures
        r == has_reserved_device(path@),
{
    let parts = portable_path_components(path);
    let ghost pv = parts@.map_values(|f: String| f@);
    let mut i: usize = 0;
    while i < parts.len()
        invariant
            pv == parts@.map_values(|f: String| f@),
            pv == portable_components(path@),
            i <= parts@.len(),
            forall|j: int| 0 <= j < i ==> !reserved_component(#[trigger] pv[j]),
        decreases parts.len() - i,
    {
        if is_reserved_component(parts[i].as_str()) {
            assert(reserved_component(pv[i as int]));
            return true;
        }
        i = i + 1;
    }
    false
}
// ---------------------------------------------------------------------------
// Entrypoint validation

/// What resolving an entrypoint under the package root found: a regular
/// file inside the package, nothing usable, or a target outside the package.
#[derive(Clone, Copy, Debug, PartialEq, Eq, Structural)]
pub enum EntrypointStatus {
    Regular,
    Missing,
    EscapesPackage,
}

/// The named components of a canonical path: its non-empty `/`-separated
/// segments.
pub open spec fn named_components(p: Seq<char>) -> Seq<Seq<char>> {
    split_on(p, '/').filter(|c: Seq<char>| c.len() > 0)
}

/// A canonical path lies within a canonical root when the root's components
/// begin it (both absolute).
pub open spec fn within_root(path: Seq<char>, root: Seq<char>) -> bool {
    &&& path.len() > 0 && path[0] == '/'
    &&& root.len() > 0 && root[0] == '/'
    &&& named_components(root).len() <= named_components(path).len()
    &&& named_components(path).take(named_components(root).len() as int) == named_components(root)
}

fn named_components_of(p: &str) -> (r: Vec<String>)
    ensures
        r@.map_values(|f: String| f@) == named_components(p@),
{
    let segments = split_str(p, '/');
    let ghost sv = segments@.map_values(|f: String| f@);
    let mut out: Vec<String> = Vec::new();
    let mut i: usize = 0;
    while i < segments.len()
        invariant
            i <= segments@.len(),
            sv == segments@.map_values(|f: String| f@),
            sv == split_on(p@, '/'),
            out@.map_values(|f: String| f@) == sv.take(i as int).filter(|c: Seq<char>| c.len() > 0),
        decreases segments.len() - i,
    {
        let ghost before = out@.map_values(|f: String| f@);
        assert(sv.take(i + 1).drop_last() =~= sv.take(i as int));
        assert(sv.take(i + 1).last() == segments@[i as int]@);
        reveal(Seq::filter);
        if !segments[i].as_str().is_empty() {
            out.push(segments[i].clone());
            assert(out@.map_values(|f: String| f@) =~= before.push(segments@[i as int]@));
        }
        i = i + 1;
    }
    assert(sv.take(sv.len() as int) =~= sv);
    out
}

/// What resolving an entrypoint found, from the canonical path it resolved
/// to (none when it did not resolve) and whether that is a regular file
/// (not a link): outside the canonical package root it escapes the package.
pub fn entrypoint_status(canonical: Option<&str>, root: &str, regular_file: bool) -> (r: EntrypointStatus)
    ensures
        r == (match canonical {
            None => EntrypointStatus::Missing,
            Some(c) => if !within_root(c@, root@) {
                EntrypointStatus::EscapesPackage
            } else if regular_file {
                EntrypointStatus::Regular
            } else {
                EntrypointStatus::Missing
            },
        }),
{
    let c = match canonical {
        None => return EntrypointStatus::Missing,
        Some(c) => c,
    };
    let cc = str_chars(c);
    let rc = str_chars(root);
    let absolute = cc.len() > 0 && cc[0] == '/' && rc.len() > 0 && rc[0] == '/';
    let pv = named_components_of(c);
    let rv = named_components_of(root);
    let ghost pview = pv@.map_values(|f: String| f@);
    let ghost rview = rv@.map_values(|f: String| f@);
    let mut within = absolute && rv.len() <= pv.len();
    if within {
        let mut same = true;
        let mut i: usize = 0;
        while i < rv.len()
            invariant
                rv@.len() <= pv@.len(),
                i <= rv@.len(),
                pview == pv@.map_values(|f: String| f@),
                rview == rv@.map_values(|f: String| f@),
                same == (forall|j: int| 0 <= j < i ==> pview[j] == rview[j]),
            decreases rv.len() - i,
        {
            let eq = str_eq(pv[i].as_str(), rv[i].as_str());
            assert(eq == (pview[i as int] == rview[i as int]));
            if !eq {
                same = false;
            }
            proof {
                if !same {
                    if eq {
                        let j = choose|j: int| 0 <= j < i && pview[j] != rview[j];
                        assert(0 <= j < i + 1 && pview[j] != rview[j]);
                    } else {
                        assert(pview[i as int] != rview[i as int]);
                    }
                }
            }
            i = i + 1;
        }
        proof {
            if same {
                assert(pview.take(rview.len() as int) =~= rview);
            } else {
                let j = choose|j: int| 0 <= j < rview.len() && pview[j] != rview[j];
                assert(pview.take(rview.len() as int)[j] != rview[j]);
            }
        }
        within = same;
    }
    if !within {
        EntrypointStatus::EscapesPackage
    } else if regular_file {
        EntrypointStatus::Regular
    } else {
        EntrypointStatus::Missing
    }
}

/// The diagnostic of an entrypoint path before anything is resolved.
pub open spec fn entrypoint_lexical(p: Seq<char>) -> Option<DiagnosticCode> {
    if !lexically_relative(p) {
        Some(DiagnosticCode::EntrypointPathInvalid)
    } else if has_ads(p) {
        Some(DiagnosticCode::EntrypointAdsComponent)
    } else if has_reserved_device(p) {
        Some(DiagnosticCode::EntrypointReservedDevice)
    } else {
        None
    }
}

/// The lexical check of an entrypoint; only a path that passes it may be
/// resolved on disk.
pub fn entrypoint_lexical_diagnostic(path: &str) -> (r: Option<DiagnosticCode>)
    ensures
        r == entrypoint_lexical(path@),
{
    if !is_lexically_relative(path) {
        Some(DiagnosticCode::EntrypointPathInvalid)
    } else if has_ads_component(path) {
        Some(DiagnosticCode::EntrypointAdsComponent)
    } else if has_windows_reserved_device_component(path) {
        Some(DiagnosticCode::EntrypointReservedDevice)
    } else {
        None
    }
}

pub open spec fn entrypoint_code(p: Seq<char>, status: EntrypointStatus) -> Option<DiagnosticCode> {
    match entrypoint_lexical(p) {
        Some(c) => Some(c),
        None => match status {
            EntrypointStatus::Regular => None,
            EntrypointStatus::Missing => Some(DiagnosticCode::EntrypointMissing),
            EntrypointStatus::EscapesPackage => Some(DiagnosticCode::EntrypointEscapesPackage),
        },
    }
}

pub open spec fn push_opt(cs: Seq<DiagnosticCode>, c: Option<DiagnosticCode>) -> Seq<DiagnosticCode> {
    match c {
        Some(c) => push_code(cs, c),
        None => cs,
    }
}

/// The resolution recorded for `p` (the first one), or `Missing`.
pub open spec fn resolution_of(res: Seq<(String, EntrypointStatus)>, p: Seq<char>) -> EntrypointStatus
    decreases res.len(),
{
    if res.len() == 0 {
        EntrypointStatus::Missing
    } else if res[0].0@ == p {
        res[0].1
    } else {
        resolution_of(res.drop_first(), p)
    }
}

fn find_resolution(res: &[(String, EntrypointStatus)], path: &str) -> (r: EntrypointStatus)
    ensures
        r == resolution_of(res@, path@),
{
    let mut i: usize = 0;
    assert(res@.skip(0) =~= res@);
    while i < res.len()
        invariant
            i <= res@.len(),
            resolution_of(res@, path@) == resolution_of(res@.skip(i as int), path@),
        decreases res.len() - i,
    {
        assert(res@.skip(i as int).drop_first() =~= res@.skip(i + 1));
        if str_eq(res[i].0.as_str(), path) {
            return res[i].1;
        }
        i = i + 1;
    }
    EntrypointStatus::Missing
}

pub open spec fn opt_seq(o: Option<Seq<char>>) -> Seq<Seq<char>> {
    match o {
        Some(x) => seq![x],
        None => Seq::empty(),
    }
}

/// The string values of an object's members, in member order.
pub open spec fn str_members(fields: Seq<(String, JsonValue)>) -> Seq<Seq<char>>
    decreases fields.len(),
{
    if fields.len() == 0 {
        Seq::empty()
    } else {
        let rest = str_members(fields.drop_last());
        match fields.last().1 {
            JsonValue::Str(s) => rest.push(s@),
            _ => rest,
        }
    }
}

/// The keys of an object's members, in member order.
pub open spec fn member_keys(fields: Seq<(String, JsonValue)>) -> Seq<Seq<char>> {
    fields.map_values(|m: (String, JsonValue)| m.0@)
}

/// The declared entrypoints: `worker`, `shell`, then each view's path.
pub open spec fn entrypoint_paths_spec(entrypoints: Option<JsonValue>) -> Seq<Seq<char>> {
    match jobject(entrypoints) {
        Some(fs) => opt_seq(jstr(fields_get(fs, "worker"@))) + opt_seq(jstr(fields_get(fs, "shell"@))) + match jobject(
            fields_get(fs, "views"@),
        ) {
            Some(vs) => str_members(vs),
            None => Seq::empty(),
        },
        None => Seq::empty(),
    }
}

fn push_str_members(out: &mut Vec<String>, fields: &Vec<(String, JsonValue)>)
    ensures
        final(out)@.map_values(|f: String| f@) == old(out)@.map_values(|f: String| f@) + str_members(fields@),
{
    let ghost start = out@.map_values(|f: String| f@);
    let mut i: usize = 0;
    assert(fields@.take(0) =~= Seq::<(String, JsonValue)>::empty());
    assert(start + str_members(fields@.take(0)) =~= start);
    while i < fields.len()
        invariant
            i <= fields@.len(),
            out@.map_values(|f: String| f@) == start + str_members(fields@.take(i as int)),
        decreases fields.len() - i,
    {
        assert(fields@.take(i + 1).drop_last() =~= fields@.take(i as int));
        assert(fields@.take(i + 1).last() == fields@[i as int]);
        let ghost before = out@;
        match &fields[i].1 {
            JsonValue::Str(v) => {
                out.push(v.clone());
                assert(out@.map_values(|f: String| f@) =~= before.map_values(|f: String| f@).push(v@));
            },
            _ => {},
        }
        i = i + 1;
    }
    assert(fields@.take(fields@.len() as int) =~= fields@);
}

fn push_opt_str(out: &mut Vec<String>, v: Option<&str>)
    ensures
        final(out)@.map_values(|f: String| f@) == old(out)@.map_values(|f: String| f@) + opt_seq(str_view(v)),
{
    let ghost before = out@;
    match v {
        Some(s) => {
            out.push(s.to_owned());
            assert(out@.map_values(|f: String| f@) =~= before.map_values(|f: String| f@) + seq![s@]);
        },
        None => {
            assert(out@.map_values(|f: String| f@) =~= before.map_values(|f: String| f@) + Seq::<Seq<char>>::empty());
        },
    }
}

/// The entrypoint paths a manifest declares, in the order they are checked.
pub fn entrypoint_paths(entrypoints: Option<&JsonValue>) -> (r: Vec<String>)
    ensures
        r@.map_values(|f: String| f@) == entrypoint_paths_spec(deref(entrypoints)),
{
    let mut out: Vec<String> = Vec::new();
    assert(out@.map_values(|f: String| f@) =~= Seq::<Seq<char>>::empty());
    match as_object(entrypoints) {
        None => out,
        Some(fields) => {
            let e = entrypoints.unwrap();
            push_opt_str(&mut out, as_str(get(e, "worker")));
            push_opt_str(&mut out, as_str(get(e, "shell")));
            match as_object(get(e, "views")) {
                Some(views) => {
                    push_str_members(&mut out, views);
                },
                None => {},
            }
            proof {
                let fs = jobject(deref(entrypoints)).unwrap();
                let va = opt_seq(jstr(fields_get(fs, "worker"@)));
                let vb = opt_seq(jstr(fields_get(fs, "shell"@)));
                let vc = match jobject(fields_get(fs, "views"@)) {
                    Some(vs) => str_members(vs),
                    None => Seq::<Seq<char>>::empty(),
                };
                assert(Seq::<Seq<char>>::empty() + va + vb + vc =~= va + vb + vc);
            }
            out
        },
    }
}

/// Diagnostic codes after checking `paths` in order.
pub open spec fn entrypoint_codes(
    cs: Seq<DiagnosticCode>,
    paths: Seq<Seq<char>>,
    res: Seq<(String, EntrypointStatus)>,
) -> Seq<DiagnosticCode>
    decreases paths.len(),
{
    if paths.len() == 0 {
        cs
    } else {
        push_opt(entrypoint_codes(cs, paths.drop_last(), res), entrypoint_code(paths.last(), resolution_of(res, paths.last())))
    }
}

/// Checks one entrypoint: lexically first, then as resolved on disk.
pub fn validate_entrypoint(path: &str, status: EntrypointStatus, diagnostics: &mut Vec<ManifestDiagnostic>)
    requires
        messages_fixed(old(diagnostics)@),
    ensures
        messages_fixed(final(diagnostics)@),
        codes_of(final(diagnostics)@) == push_opt(codes_of(old(diagnostics)@), entrypoint_code(path@, status)),
{
    match entrypoint_lexical_diagnostic(path) {
        Some(code) => push(diagnostics, code),
        None => match status {
            EntrypointStatus::Regular => {},
            EntrypointStatus::Missing => push(diagnostics, DiagnosticCode::EntrypointMissing),
            EntrypointStatus::EscapesPackage => push(diagnostics, DiagnosticCode::EntrypointEscapesPackage),
        },
    }
}

/// Checks every declared entrypoint; `resolutions` tells, for the paths
/// that pass the lexical check, what resolving them found.
pub fn validate_entrypoints(
    entrypoints: Option<&JsonValue>,
    resolutions: &[(String, EntrypointStatus)],
    diagnostics: &mut Vec<ManifestDiagnostic>,
)
    requires
        messages_fixed(old(diagnostics)@),
    ensures
        messages_fixed(final(diagnostics)@),
        codes_of(final(diagnostics)@) == entrypoint_codes(codes_of(old(diagnostics)@), entrypoint_paths_spec(deref(entrypoints)), resolutions@),
{
    let paths = entrypoint_paths(entrypoints);
    let ghost pv = paths@.map_values(|f: String| f@);
    let ghost start = codes_of(diagnostics@);
    let mut i: usize = 0;
    assert(pv.take(0) =~= Seq::<Seq<char>>::empty());
    while i < paths.len()
        invariant
            pv == paths@.map_values(|f: String| f@),
            i <= paths@.len(),
            messages_fixed(diagnostics@),
            codes_of(diagnostics@) == entrypoint_codes(start, pv.take(i as int), resolutions@),
        decreases paths.len() - i,
    {
        let status = find_resolution(resolutions, paths[i].as_str());
        validate_entrypoint(paths[i].as_str(), status, diagnostics);
        assert(pv.take(i + 1).drop_last() =~= pv.take(i as int));
        assert(pv.take(i + 1).last() == paths@[i as int]@);
        i = i + 1;
    }
    assert(pv.take(pv.len() as int) =~= pv);
}

// ---------------------------------------------------------------------------
// Contribution ids, rich views and permissions

pub open spec fn has_prefix(s: Seq<char>, p: Seq<char>) -> bool {
    p.len() <= s.len() && s.take(p.len() as int) == p
}

/// The ids (string `id` members) of the items of an array, in order.
pub open spec fn item_ids(items: Seq<JsonValue>) -> Seq<Seq<char>>
    decreases items.len(),
{
    if items.len() == 0 {
        Seq::empty()
    } else {
        item_ids(items.drop_last()) + opt_seq(jstr(jget(items.last(), "id"@)))
    }
}

/// The contribution collections whose ids are checked, in order.
pub open spec fn contribution_collections() -> Seq<Seq<char>> {
    seq!["commands"@, "composerActions"@, "statusItems"@, "settings"@, "renderers"@, "views"@, "previewProviders"@, "themes"@]
}

/// The ids of every item of the named collections, in order.
pub open spec fn collection_ids(fields: Seq<(String, JsonValue)>, names: Seq<Seq<char>>) -> Seq<Seq<char>>
    decreases names.len(),
{
    if names.len() == 0 {
        Seq::empty()
    } else {
        collection_ids(fields, names.drop_last()) + match jarray(fields_get(fields, names.last())) {
            Some(items) => item_ids(items),
            None => Seq::empty(),
        }
    }
}

/// Codes after checking ids in order: an id outside `<manifest id>.` and
/// `<manifest id>:` is out of namespace; an id seen before is a duplicate.
pub open spec fn id_codes(cs: Seq<DiagnosticCode>, ids: Seq<Seq<char>>, manifest_id: Seq<char>) -> Seq<DiagnosticCode>
    decreases ids.len(),
{
    if ids.len() == 0 {
        cs
    } else {
        let prev = id_codes(cs, ids.drop_last(), manifest_id);
        let id = ids.last();
        let c1 = if !has_prefix(id, manifest_id.push('.')) && !has_prefix(id, manifest_id.push(':')) {
            push_code(prev, DiagnosticCode::ContributionIdNamespace)
        } else {
            prev
        };
        if ids.drop_last().contains(id) {
            push_code(c1, DiagnosticCode::ContributionIdDuplicate)
        } else {
            c1
        }
    }
}

pub open spec fn contribution_id_codes(cs: Seq<DiagnosticCode>, contributes: Option<JsonValue>, manifest_id: Seq<char>) -> Seq<DiagnosticCode> {
    match jobject(contributes) {
        Some(fs) => id_codes(cs, collection_ids(fs, contribution_collections()), manifest_id),
        None => cs,
    }
}

fn starts_with_chars(s: &str, p: &Vec<char>) -> (r: bool)
    ensures
        r == has_prefix(s@, p@),
{
    let chars = str_chars(s);
    if p.len() > chars.len() {
        return false;
    }
    let mut i: usize = 0;
    while i < p.len()
        invariant
            chars@ == s@,
            p@.len() <= chars@.len(),
            i <= p@.len(),
            forall|j: int| 0 <= j < i ==> chars@[j] == p@[j],
        decreases p.len() - i,
    {
        if chars[i] != p[i] {
            assert(s@.take(p@.len() as int)[i as int] != p@[i as int]);
            return false;
        }
        i = i + 1;
    }
    assert(s@.take(p@.len() as int) =~= p@);
    true
}

pub fn contains_string(v: &Vec<String>, s: &str) -> (r: bool)
    ensures
        r == v@.map_values(|f: String| f@).contains(s@),
{
    let ghost vv = v@.map_values(|f: String| f@);
    let mut i: usize = 0;
    while i < v.len()
        invariant
            vv == v@.map_values(|f: String| f@),
            i <= v@.len(),
            forall|j: int| 0 <= j < i ==> vv[j] != s@,
        decreases v.len() - i,
    {
        if str_eq(v[i].as_str(), s) {
            assert(vv[i as int] == s@);
            return true;
        }
        i = i + 1;
    }
    assert(!vv.contains(s@)) by {
        if vv.contains(s@) {
            let j = choose|j: int| 0 <= j < vv.len() && vv[j] == s@;
            assert(vv[j] != s@);
        }
    }
    false
}

/// Checks that contribution ids sit in the manifest's namespace and are
/// distinct across all collections.
pub fn validate_contribution_ids(contributes: Option<&JsonValue>, manifest_id: &str, diagnostics: &mut Vec<ManifestDiagnostic>)
    requires
        messages_fixed(old(diagnostics)@),
    ensures
        messages_fixed(final(diagnostics)@),
        codes_of(final(diagnostics)@) == contribution_id_codes(codes_of(old(diagnostics)@), deref(contributes), manifest_id@),
{
    let fields = match as_object(contributes) {
        Some(f) => f,
        None => return,
    };
    let c = contributes.unwrap();
    let mid = str_chars(manifest_id);
    let mut dot = mid.clone();
    dot.push('.');
    let mut colon = mid.clone();
    colon.push(':');
    assert(dot@ == manifest_id@.push('.') && colon@ == manifest_id@.push(':'));
    let names: [&str; 8] = ["commands", "composerActions", "statusItems", "settings", "renderers", "views", "previewProviders", "themes"];
    let ghost start = codes_of(diagnostics@);
    let ghost fs = fields@;
    let ghost all = contribution_collections();
    let mut seen: Vec<String> = Vec::new();
    let mut n: usize = 0;
    assert(all.take(0) =~= Seq::<Seq<char>>::empty());
    assert(seen@.map_values(|f: String| f@) =~= Seq::<Seq<char>>::empty());
    while n < 8
        invariant
            n <= 8,
            fs == fields@,
            jobject(deref(contributes)) == Some(fs),
            *c == deref(contributes).unwrap(),
            all == contribution_collections(),
            names@.len() == 8,
            forall|k: int| 0 <= k < 8 ==> (#[trigger] names@[k])@ == all[k],
            dot@ == manifest_id@.push('.'),
            colon@ == manifest_id@.push(':'),
            messages_fixed(diagnostics@),
            seen@.map_values(|f: String| f@) == collection_ids(fs, all.take(n as int)),
            codes_of(diagnostics@) == id_codes(start, collection_ids(fs, all.take(n as int)), manifest_id@),
        decreases 8 - n,
    {
        let ghost prefix_ids = collection_ids(fs, all.take(n as int));
        assert(all.take(n + 1).drop_last() =~= all.take(n as int));
        assert(all.take(n + 1).last() == all[n as int]);
        match as_array(get(c, names[n])) {
            None => {
                assert(collection_ids(fs, all.take(n + 1)) =~= prefix_ids);
            },
            Some(items) => {
                let ghost iv = items@;
                let mut i: usize = 0;
                assert(item_ids(iv.take(0)) =~= Seq::<Seq<char>>::empty());
                assert(prefix_ids + item_ids(iv.take(0)) =~= prefix_ids);
                while i < items.len()
                    invariant
                        iv == items@,
                        i <= iv.len(),
                        dot@ == manifest_id@.push('.'),
                        colon@ == manifest_id@.push(':'),
                        messages_fixed(diagnostics@),
                        seen@.map_values(|f: String| f@) == prefix_ids + item_ids(iv.take(i as int)),
                        codes_of(diagnostics@) == id_codes(start, prefix_ids + item_ids(iv.take(i as int)), manifest_id@),
                    decreases iv.len() - i,
                {
                    let ghost ids_before = prefix_ids + item_ids(iv.take(i as int));
                    assert(iv.take(i + 1).drop_last() =~= iv.take(i as int));
                    assert(iv.take(i + 1).last() == iv[i as int]);
                    match as_str(get(&items[i], "id")) {
                        None => {
                            assert(prefix_ids + item_ids(iv.take(i + 1)) =~= ids_before);
                        },
                        Some(id) => {
                            let ids_after: Ghost<Seq<Seq<char>>> = Ghost(ids_before.push(id@));
                            assert(prefix_ids + item_ids(iv.take(i + 1)) =~= ids_after@);
                            assert(ids_after@.drop_last() =~= ids_before);
                            if !starts_with_chars(id, &dot) && !starts_with_chars(id, &colon) {
                                push(diagnostics, DiagnosticCode::ContributionIdNamespace);
                            }
                            if contains_string(&seen, id) {
                                push(diagnostics, DiagnosticCode::ContributionIdDuplicate);
                            }
                            let ghost before_seen = seen@;
                            seen.push(id.to_owned());
                            assert(seen@.map_values(|f: String| f@) =~= before_seen.map_values(|f: String| f@).push(id@));
                        },
                    }
                    i = i + 1;
                }
                assert(iv.take(iv.len() as int) =~= iv);
            },
        }
        n = n + 1;
    }
    assert(all.take(8) =~= all);
}

/// Keys of the `views` entrypoint object.
pub open spec fn view_keys(entrypoints: Option<JsonValue>) -> Seq<Seq<char>> {
    match jobject(entrypoints) {
        Some(fs) => match jobject(fields_get(fs, "views"@)) {
            Some(vs) => member_keys(vs),
            None => Seq::empty(),
        },
        None => Seq::empty(),
    }
}

/// Codes after checking the rich items of one array: a rich item needs the
/// permission and a declared view entrypoint.
pub open spec fn rich_item_codes(cs: Seq<DiagnosticCode>, items: Seq<JsonValue>, views: Seq<Seq<char>>, allowed: bool) -> Seq<DiagnosticCode>
    decreases items.len(),
{
    if items.len() == 0 {
        cs
    } else {
        let prev = rich_item_codes(cs, items.drop_last(), views, allowed);
        let item = items.last();
        if jstr(jget(item, "kind"@)) != Some("rich"@) {
            prev
        } else {
            let c1 = if !allowed { push_code(prev, DiagnosticCode::RichViewPermissionRequired) } else { prev };
            let known = match jstr(jget(item, "viewId"@)) {
                Some(v) => views.contains(v),
                None => false,
            };
            if !known { push_code(c1, DiagnosticCode::RichViewEntrypointRequired) } else { c1 }
        }
    }
}

pub open spec fn rich_collections() -> Seq<Seq<char>> {
    seq!["renderers"@, "views"@, "previewProviders"@]
}

pub open spec fn rich_collection_codes(
    cs: Seq<DiagnosticCode>,
    fields: Seq<(String, JsonValue)>,
    names: Seq<Seq<char>>,
    views: Seq<Seq<char>>,
    allowed: bool,
) -> Seq<DiagnosticCode>
    decreases names.len(),
{
    if names.len() == 0 {
        cs
    } else {
        let prev = rich_collection_codes(cs, fields, names.drop_last(), views, allowed);
        match jarray(fields_get(fields, names.last())) {
            Some(items) => rich_item_codes(prev, items, views, allowed),
            None => prev,
        }
    }
}

/// Rich views need the `ui.richView` permission, and each rich contribution
/// must name a declared view entrypoint.
pub open spec fn rich_view_codes(
    cs: Seq<DiagnosticCode>,
    contributes: Option<JsonValue>,
    entrypoints: Option<JsonValue>,
    permissions: Seq<Seq<char>>,
) -> Seq<DiagnosticCode> {
    let views = view_keys(entrypoints);
    let allowed = permissions.contains("ui.richView"@);
    let c0 = if views.len() > 0 && !allowed { push_code(cs, DiagnosticCode::RichViewPermissionRequired) } else { cs };
    match jobject(contributes) {
        Some(fs) => rich_collection_codes(c0, fs, rich_collections(), views, allowed),
        None => c0,
    }
}

fn member_key_list(fields: &Vec<(String, JsonValue)>) -> (r: Vec<String>)
    ensures
        r@.map_values(|f: String| f@) == member_keys(fields@),
{
    let mut out: Vec<String> = Vec::new();
    let mut i: usize = 0;
    while i < fields.len()
        invariant
            i <= fields@.len(),
            out@.map_values(|f: String| f@) == member_keys(fields@.take(i as int)),
        decreases fields.len() - i,
    {
        let ghost before = out@;
        out.push(fields[i].0.clone());
        assert(member_keys(fields@.take(i + 1)) =~= member_keys(fields@.take(i as int)).push(fields@[i as int].0@));
        assert(out@.map_values(|f: String| f@) =~= before.map_values(|f: String| f@).push(fields@[i as int].0@));
        i = i + 1;
    }
    assert(fields@.take(fields@.len() as int) =~= fields@);
    out
}

pub fn validate_rich_views(
    contributes: Option<&JsonValue>,
    entrypoints: Option<&JsonValue>,
    permissions: &Vec<String>,
    diagnostics: &mut Vec<ManifestDiagnostic>,
)
    requires
        messages_fixed(old(diagnostics)@),
    ensures
        messages_fixed(final(diagnostics)@),
        codes_of(final(diagnostics)@) == rich_view_codes(
            codes_of(old(diagnostics)@),
            deref(contributes),
            deref(entrypoints),
            permissions@.map_values(|f: String| f@),
        ),
{
    let views: Vec<String> = match as_object(entrypoints) {
        Some(_) => match as_object(get(entrypoints.unwrap(), "views")) {
            Some(vs) => member_key_list(vs),
            None => Vec::new(),
        },
        None => Vec::new(),
    };
    let ghost vv = views@.map_values(|f: String| f@);
    assert(vv =~= view_keys(deref(entrypoints)));
    proof {
        reveal_strlit("ui.richView");
    }
    let allowed = contains_string(permissions, "ui.richView");
    if views.len() > 0 && !allowed {
        push(diagnostics, DiagnosticCode::RichViewPermissionRequired);
    }
    let fields = match as_object(contributes) {
        Some(f) => f,
        None => return,
    };
    let c = contributes.unwrap();
    let names: [&str; 3] = ["renderers", "views", "previewProviders"];
    let ghost fs = fields@;
    let ghost all = rich_collections();
    let ghost start = codes_of(diagnostics@);
    let mut n: usize = 0;
    assert(all.take(0) =~= Seq::<Seq<char>>::empty());
    while n < 3
        invariant
            n <= 3,
            fs == fields@,
            jobject(deref(contributes)) == Some(fs),
            *c == deref(contributes).unwrap(),
            all == rich_collections(),
            names@.len() == 3,
            forall|k: int| 0 <= k < 3 ==> (#[trigger] names@[k])@ == all[k],
            vv == views@.map_values(|f: String| f@),
            messages_fixed(diagnostics@),
            codes_of(diagnostics@) == rich_collection_codes(start, fs, all.take(n as int), vv, allowed),
        decreases 3 - n,
    {
        assert(all.take(n + 1).drop_last() =~= all.take(n as int));
        assert(all.take(n + 1).last() == all[n as int]);
        let ghost prev = codes_of(diagnostics@);
        match as_array(get(c, names[n])) {
            None => {},
            Some(items) => {
                let ghost iv = items@;
                let mut i: usize = 0;
                assert(iv.take(0) =~= Seq::<JsonValue>::empty());
                while i < items.len()
                    invariant
                        iv == items@,
                        i <= iv.len(),
                        vv == views@.map_values(|f: String| f@),
                        messages_fixed(diagnostics@),
                        codes_of(diagnostics@) == rich_item_codes(prev, iv.take(i as int), vv, allowed),
                    decreases iv.len() - i,
                {
                    assert(iv.take(i + 1).drop_last() =~= iv.take(i as int));
                    assert(iv.take(i + 1).last() == iv[i as int]);
                    let item = &items[i];
                    proof {
                        reveal_strlit("rich");
                    }
                    let is_rich = match as_str(get(item, "kind")) {
                        Some(k) => str_eq(k, "rich"),
                        None => false,
                    };
                    if is_rich {
                        if !allowed {
                            push(diagnostics, DiagnosticCode::RichViewPermissionRequired);
                        }
                        let known = match as_str(get(item, "viewId")) {
                            Some(v) => contains_string(&views, v),
                            None => false,
                        };
                        if !known {
                            push(diagnostics, DiagnosticCode::RichViewEntrypointRequired);
                        }
                    }
                    i = i + 1;
                }
                assert(iv.take(iv.len() as int) =~= iv);
            },
        }
        n = n + 1;
    }
    assert(all.take(3) =~= all);
}

/// The string items of an array, in order.
pub open spec fn str_items(items: Seq<JsonValue>) -> Seq<Seq<char>>
    decreases items.len(),
{
    if items.len() == 0 {
        Seq::empty()
    } else {
        let rest = str_items(items.drop_last());
        match items.last() {
            JsonValue::Str(s) => rest.push(s@),
            _ => rest,
        }
    }
}

/// Each element once, in order of first occurrence.
pub open spec fn dedup(s: Seq<Seq<char>>) -> Seq<Seq<char>>
    decreases s.len(),
{
    if s.len() == 0 {
        Seq::empty()
    } else {
        let d = dedup(s.drop_last());
        if d.contains(s.last()) {
            d
        } else {
            d.push(s.last())
        }
    }
}

/// The distinct strings of an array value.
pub open spec fn string_set_spec(v: Option<JsonValue>) -> Seq<Seq<char>> {
    match jarray(v) {
        Some(items) => dedup(str_items(items)),
        None => Seq::empty(),
    }
}

pub fn string_set(value: Option<&JsonValue>) -> (r: Vec<String>)
    ensures
        r@.map_values(|f: String| f@) == string_set_spec(deref(value)),
{
    let mut out: Vec<String> = Vec::new();
    let items = match as_array(value) {
        Some(items) => items,
        None => {
            assert(out@.map_values(|f: String| f@) =~= Seq::<Seq<char>>::empty());
            return out;
        },
    };
    let ghost iv = items@;
    let mut i: usize = 0;
    assert(out@.map_values(|f: String| f@) =~= dedup(str_items(iv.take(0))));
    while i < items.len()
        invariant
            iv == items@,
            i <= iv.len(),
            out@.map_values(|f: String| f@) == dedup(str_items(iv.take(i as int))),
        decreases iv.len() - i,
    {
        assert(iv.take(i + 1).drop_last() =~= iv.take(i as int));
        assert(iv.take(i + 1).last() == iv[i as int]);
        match &items[i] {
            JsonValue::Str(s) => {
                let ghost prev = str_items(iv.take(i as int));
                assert(str_items(iv.take(i + 1)) == prev.push(s@));
                assert(prev.push(s@).drop_last() =~= prev);
                if !contains_string(&out, s.as_str()) {
                    let ghost before = out@;
                    out.push(s.clone());
                    assert(out@.map_values(|f: String| f@) =~= before.map_values(|f: String| f@).push(s@));
                }
            },
            _ => {
                assert(str_items(iv.take(i + 1)) == str_items(iv.take(i as int)));
            },
        }
        i = i + 1;
    }
    assert(iv.take(iv.len() as int) =~= iv);
    out
}

// ---------------------------------------------------------------------------
// Compatibility and the Tier-1A projection

/// An optional range member: absent is fine; present, it must be a valid
/// range string (otherwise the whole projection fails).
pub open spec fn opt_range(v: Option<JsonValue>) -> Option<Option<Seq<char>>> {
    match v {
        None => Some(None),
        Some(x) => match jstr(Some(x)) {
            Some(r) => if range_ok(r) { Some(Some(r)) } else { None },
            None => None,
        },
    }
}

/// The engine ranges and whether any feature is required: `engines.piui` is
/// required; `engines.pi` and `engines.hostApi` are optional.
pub open spec fn compat_spec(fields: Seq<(String, JsonValue)>) -> Option<(Seq<char>, Option<Seq<char>>, Option<Seq<char>>, bool)> {
    match jobject(fields_get(fields, "engines"@)) {
        None => None,
        Some(es) => match jstr(fields_get(es, "piui"@)) {
            None => None,
            Some(piui) => if !range_ok(piui) {
                None
            } else {
                match (opt_range(fields_get(es, "pi"@)), opt_range(fields_get(es, "hostApi"@))) {
                    (Some(pi), Some(host)) => Some((
                        piui,
                        pi,
                        host,
                        match jarray(fields_get(fields, "requires"@)) {
                            Some(items) => items.len() > 0,
                            None => false,
                        },
                    )),
                    _ => None,
                }
            },
        },
    }
}

pub open spec fn compat_view(c: Option<(String, Option<String>, Option<String>, bool)>) -> Option<(Seq<char>, Option<Seq<char>>, Option<Seq<char>>, bool)> {
    match c {
        Some((a, b, c, d)) => Some((a@, opt_view(b), opt_view(c), d)),
        None => None,
    }
}

fn optional_range(v: Option<&JsonValue>) -> (r: Option<Option<String>>)
    ensures
        match r {
            Some(x) => opt_range(deref(v)) == Some(opt_view(x)),
            None => opt_range(deref(v)) is None,
        },
{
    match v {
        None => Some(None),
        Some(x) => match as_str(Some(x)) {
            Some(text) => match compatibility_range(text) {
                Some(range) => Some(Some(range)),
                None => None,
            },
            None => None,
        },
    }
}

pub fn project_compatibility(manifest: &JsonValue) -> (r: Option<(String, Option<String>, Option<String>, bool)>)
    ensures
        compat_view(r) == match jobject(Some(*manifest)) {
            Some(fs) => compat_spec(fs),
            None => None,
        },
{
    let engines = get(manifest, "engines");
    if as_object(engines).is_none() {
        return None;
    }
    let e = engines.unwrap();
    let piui = match as_str(get(e, "piui")) {
        Some(text) => match compatibility_range(text) {
            Some(range) => range,
            None => return None,
        },
        None => return None,
    };
    let pi = match optional_range(get(e, "pi")) {
        Some(x) => x,
        None => return None,
    };
    let host_api = match optional_range(get(e, "hostApi")) {
        Some(x) => x,
        None => return None,
    };
    let has_required_features = match as_array(get(manifest, "requires")) {
        Some(items) => items.len() > 0,
        None => false,
    };
    Some((piui, pi, host_api, has_required_features))
}

/// An optional display member: absent is fine; present, it must be valid
/// display text.
pub open spec fn opt_display(v: Option<JsonValue>, max_chars: nat) -> Option<Option<Seq<char>>> {
    match v {
        None => Some(None),
        Some(x) => match jstr(Some(x)) {
            Some(t) => if display_ok(t, max_chars) { Some(Some(t)) } else { None },
            None => None,
        },
    }
}

pub fn optional_display_text(value: Option<&JsonValue>, max_chars: usize) -> (r: Option<Option<String>>)
    ensures
        match r {
            Some(x) => opt_display(deref(value), max_chars as nat) == Some(opt_view(x)),
            None => opt_display(deref(value), max_chars as nat) is None,
        },
{
    match value {
        None => Some(None),
        Some(x) => match as_str(Some(x)) {
            Some(text) => match display_text(text, max_chars) {
                Some(t) => Some(Some(t)),
                None => None,
            },
            None => None,
        },
    }
}

pub struct CommandView {
    pub id: Seq<char>,
    pub title: Seq<char>,
    pub description: Option<Seq<char>>,
    pub pi_command: Seq<char>,
}

impl View for CommandContribution {
    type V = CommandView;

    open spec fn view(&self) -> CommandView {
        CommandView {
            id: self.id@,
            title: self.title@,
            description: opt_view(self.description),
            pi_command: self.pi_command@,
        }
    }
}

pub struct ActionView {
    pub id: Seq<char>,
    pub title: Seq<char>,
    pub description: Option<Seq<char>>,
    pub command_id: Seq<char>,
    pub order: i32,
}

impl View for ComposerActionContribution {
    type V = ActionView;

    open spec fn view(&self) -> ActionView {
        ActionView {
            id: self.id@,
            title: self.title@,
            description: opt_view(self.description),
            command_id: self.command_id@,
            order: self.order,
        }
    }
}

/// The command pass's state: every command id seen, the ids projected, and
/// the projected commands.
pub struct CmdFold {
    pub all_ids: Seq<Seq<char>>,
    pub projected: Seq<Seq<char>>,
    pub commands: Seq<CommandView>,
}

/// One command item. Conditional commands and handlers other than
/// `pi-command:` are skipped; an unsafe command name or invalid display text
/// fails the whole projection.
pub open spec fn command_step(st: CmdFold, item: JsonValue) -> Option<CmdFold> {
    match jobject(Some(item)) {
        None => None,
        Some(fs) => match jstr(fields_get(fs, "id"@)) {
            None => None,
            Some(id) => {
                let all = st.all_ids.push(id);
                if fields_get(fs, "when"@) is Some || fields_get(fs, "enablement"@) is Some {
                    Some(CmdFold { all_ids: all, ..st })
                } else {
                    match jstr(fields_get(fs, "handler"@)) {
                        None => None,
                        Some(h) => if !has_prefix(h, "pi-command:"@) {
                            Some(CmdFold { all_ids: all, ..st })
                        } else {
                            let pc = h.skip("pi-command:"@.len() as int);
                            if !safe_command_name(encode_utf8(pc)) {
                                None
                            } else {
                                match jstr(fields_get(fs, "title"@)) {
                                    None => None,
                                    Some(t) => if !display_ok(t, MAX_TITLE_CHARS as nat) {
                                        None
                                    } else {
                                        match opt_display(fields_get(fs, "description"@), MAX_DESCRIPTION_CHARS as nat) {
                                            None => None,
                                            Some(d) => Some(CmdFold {
                                                all_ids: all,
                                                projected: st.projected.push(id),
                                                commands: st.commands.push(CommandView { id, title: t, description: d, pi_command: pc }),
                                            }),
                                        }
                                    },
                                }
                            }
                        },
                    }
                }
            },
        },
    }
}

pub open spec fn empty_fold() -> CmdFold {
    CmdFold { all_ids: Seq::empty(), projected: Seq::empty(), commands: Seq::empty() }
}

pub open spec fn commands_fold(items: Seq<JsonValue>) -> Option<CmdFold>
    decreases items.len(),
{
    if items.len() == 0 {
        Some(empty_fold())
    } else {
        match commands_fold(items.drop_last()) {
            None => None,
            Some(st) => command_step(st, items.last()),
        }
    }
}

/// An action's order: 200 when absent, else an integer within `i32`.
pub open spec fn action_order(v: Option<JsonValue>) -> Option<i32> {
    match v {
        None => Some(DEFAULT_COMPOSER_ACTION_ORDER),
        Some(JsonValue::Number(Some(n))) => if i32::MIN <= n && n <= i32::MAX { Some(n as i32) } else { None },
        Some(_) => None,
    }
}

/// One composer action. Its command must exist; an action with a condition
/// or for a command that was not projected is skipped.
pub open spec fn action_step(all: Seq<Seq<char>>, projected: Seq<Seq<char>>, acts: Seq<ActionView>, item: JsonValue) -> Option<Seq<ActionView>> {
    match jobject(Some(item)) {
        None => None,
        Some(fs) => match jstr(fields_get(fs, "command"@)) {
            None => None,
            Some(cid) => if !all.contains(cid) {
                None
            } else if fields_get(fs, "when"@) is Some || !projected.contains(cid) {
                Some(acts)
            } else {
                match action_order(fields_get(fs, "order"@)) {
                    None => None,
                    Some(order) => match jstr(fields_get(fs, "id"@)) {
                        None => None,
                        Some(id) => match jstr(fields_get(fs, "title"@)) {
                            None => None,
                            Some(t) => if !display_ok(t, MAX_TITLE_CHARS as nat) {
                                None
                            } else {
                                match opt_display(fields_get(fs, "description"@), MAX_DESCRIPTION_CHARS as nat) {
                                    None => None,
                                    Some(d) => Some(acts.push(ActionView { id, title: t, description: d, command_id: cid, order })),
                                }
                            },
                        },
                    },
                }
            },
        },
    }
}

pub open spec fn actions_fold(all: Seq<Seq<char>>, projected: Seq<Seq<char>>, items: Seq<JsonValue>) -> Option<Seq<ActionView>>
    decreases items.len(),
{
    if items.len() == 0 {
        Some(Seq::empty())
    } else {
        match actions_fold(all, projected, items.drop_last()) {
            None => None,
            Some(acts) => action_step(all, projected, acts, items.last()),
        }
    }
}

/// An absent collection is empty; a present one must be an array.
pub open spec fn array_or_empty(v: Option<JsonValue>) -> Option<Seq<JsonValue>> {
    match v {
        None => Some(Seq::empty()),
        Some(JsonValue::Array(items)) => Some(items@),
        Some(_) => None,
    }
}

/// The Tier-1A surface: the display name, the `pi-command:` commands and
/// the composer actions on them, at most 128 items of each kind.
pub open spec fn tier_1a_spec(fields: Seq<(String, JsonValue)>) -> Option<(Seq<char>, Seq<CommandView>, Seq<ActionView>)> {
    match jstr(fields_get(fields, "name"@)) {
        None => None,
        Some(n) => if !display_ok(n, MAX_TITLE_CHARS as nat) {
            None
        } else {
            match jobject(fields_get(fields, "contributes"@)) {
                None => None,
                Some(cf) => match array_or_empty(fields_get(cf, "commands"@)) {
                    None => None,
                    Some(ci) => if ci.len() > MAX_PROJECTED_CONTRIBUTIONS {
                        None
                    } else {
                        match commands_fold(ci) {
                            None => None,
                            Some(st) => match array_or_empty(fields_get(cf, "composerActions"@)) {
                                None => None,
                                Some(ai) => if ai.len() > MAX_PROJECTED_CONTRIBUTIONS {
                                    None
                                } else {
                                    match actions_fold(st.all_ids, st.projected, ai) {
                                        None => None,
                                        Some(acts) => Some((n, st.commands, acts)),
                                    }
                                },
                            },
                        }
                    },
                },
            }
        },
    }
}

pub open spec fn commands_view(v: Seq<CommandContribution>) -> Seq<CommandView> {
    v.map_values(|c: CommandContribution| c@)
}

pub open spec fn actions_view(v: Seq<ComposerActionContribution>) -> Seq<ActionView> {
    v.map_values(|a: ComposerActionContribution| a@)
}

pub open spec fn strs_view(v: Seq<String>) -> Seq<Seq<char>> {
    v.map_values(|f: String| f@)
}

fn array_items_or_empty<'a>(v: Option<&'a JsonValue>, empty: &'a Vec<JsonValue>) -> (r: Option<&'a Vec<JsonValue>>)
    requires
        empty@.len() == 0,
    ensures
        match r {
            Some(items) => array_or_empty(deref(v)) == Some(items@),
            None => array_or_empty(deref(v)) is None,
        },
{
    match v {
        None => {
            assert(empty@ =~= Seq::<JsonValue>::empty());
            Some(empty)
        },
        Some(JsonValue::Array(items)) => Some(items),
        Some(_) => None,
    }
}

/// One command item of the projection; `None` fails the whole projection.
fn project_command(
    item: &JsonValue,
    all_ids: &mut Vec<String>,
    projected: &mut Vec<String>,
    commands: &mut Vec<CommandContribution>,
) -> (ok: bool)
    ensures
        ok == command_step(
            CmdFold { all_ids: strs_view(old(all_ids)@), projected: strs_view(old(projected)@), commands: commands_view(old(commands)@) },
            *item,
        ) is Some,
        ok ==> command_step(
            CmdFold { all_ids: strs_view(old(all_ids)@), projected: strs_view(old(projected)@), commands: commands_view(old(commands)@) },
            *item,
        ) == Some(CmdFold { all_ids: strs_view(final(all_ids)@), projected: strs_view(final(projected)@), commands: commands_view(final(commands)@) }),
{
    if as_object(Some(item)).is_none() {
        return false;
    }
    let id = match as_str(get(item, "id")) {
        Some(id) => id,
        None => return false,
    };
    let ghost all_before = strs_view(all_ids@);
    all_ids.push(id.to_owned());
    assert(strs_view(all_ids@) =~= all_before.push(id@));
    if get(item, "when").is_some() || get(item, "enablement").is_some() {
        return true;
    }
    let handler = match as_str(get(item, "handler")) {
        Some(h) => h,
        None => return false,
    };
    let prefix = str_chars("pi-command:");
    proof {
        reveal_strlit("pi-command:");
    }
    if !starts_with_chars(handler, &prefix) {
        return true;
    }
    let hc = str_chars(handler);
    let pi_command = string_from_range(&hc, prefix.len(), hc.len());
    assert(pi_command@ =~= handler@.skip("pi-command:"@.len() as int));
    if !is_safe_pi_command_name(pi_command.as_str()) {
        return false;
    }
    let title = match as_str(get(item, "title")) {
        Some(t) => match display_text(t, MAX_TITLE_CHARS) {
            Some(t) => t,
            None => return false,
        },
        None => return false,
    };
    let description = match optional_display_text(get(item, "description"), MAX_DESCRIPTION_CHARS) {
        Some(d) => d,
        None => return false,
    };
    let ghost projected_before = strs_view(projected@);
    let ghost commands_before = commands_view(commands@);
    projected.push(id.to_owned());
    let command = CommandContribution { id: id.to_owned(), title, description, pi_command };
    commands.push(command);
    assert(strs_view(projected@) =~= projected_before.push(id@));
    assert(commands_view(commands@) =~= commands_before.push(commands@.last()@));
    true
}

/// One composer action of the projection; `None` fails the whole projection.
fn project_action(
    item: &JsonValue,
    all_ids: &Vec<String>,
    projected: &Vec<String>,
    actions: &mut Vec<ComposerActionContribution>,
) -> (ok: bool)
    ensures
        ok == action_step(strs_view(all_ids@), strs_view(projected@), actions_view(old(actions)@), *item) is Some,
        ok ==> action_step(strs_view(all_ids@), strs_view(projected@), actions_view(old(actions)@), *item) == Some(actions_view(final(actions)@)),
{
    if as_object(Some(item)).is_none() {
        return false;
    }
    let command_id = match as_str(get(item, "command")) {
        Some(c) => c,
        None => return false,
    };
    if !contains_string(all_ids, command_id) {
        return false;
    }
    if get(item, "when").is_some() || !contains_string(projected, command_id) {
        return true;
    }
    let order: i32 = match get(item, "order") {
        None => DEFAULT_COMPOSER_ACTION_ORDER,
        Some(JsonValue::Number(Some(n))) => {
            if *n < -2147483648i64 || *n > 2147483647i64 {
                return false;
            }
            *n as i32
        },
        Some(_) => return false,
    };
    let id = match as_str(get(item, "id")) {
        Some(i) => i,
        None => return false,
    };
    let title = match as_str(get(item, "title")) {
        Some(t) => match display_text(t, MAX_TITLE_CHARS) {
            Some(t) => t,
            None => return false,
        },
        None => return false,
    };
    let description = match optional_display_text(get(item, "description"), MAX_DESCRIPTION_CHARS) {
        Some(d) => d,
        None => return false,
    };
    let ghost before = actions_view(actions@);
    actions.push(ComposerActionContribution {
        id: id.to_owned(),
        title,
        description,
        command_id: command_id.to_owned(),
        order,
    });
    assert(actions_view(actions@) =~= before.push(actions@.last()@));
    true
}

/// Projects the narrow Tier-1A surface of a manifest object; handlers,
/// paths, conditions, icons and raw values are never retained.
pub fn project_tier_1a_contributions(manifest: &JsonValue) -> (r: Option<(String, Vec<CommandContribution>, Vec<ComposerActionContribution>)>)
    ensures
        match r {
            Some((n, cs, acts)) => match jobject(Some(*manifest)) {
                Some(fs) => tier_1a_spec(fs) == Some((n@, commands_view(cs@), actions_view(acts@))),
                None => false,
            },
            None => match jobject(Some(*manifest)) {
                Some(fs) => tier_1a_spec(fs) is None,
                None => true,
            },
        },
{
    if as_object(Some(manifest)).is_none() {
        return None;
    }
    let name = match as_str(get(manifest, "name")) {
        Some(n) => match display_text(n, MAX_TITLE_CHARS) {
            Some(n) => n,
            None => return None,
        },
        None => return None,
    };
    let contributes = get(manifest, "contributes");
    if as_object(contributes).is_none() {
        return None;
    }
    let cf = contributes.unwrap();
    let empty: Vec<JsonValue> = Vec::new();
    let command_items = match array_items_or_empty(get(cf, "commands"), &empty) {
        Some(items) => items,
        None => return None,
    };
    if command_items.len() > MAX_PROJECTED_CONTRIBUTIONS {
        return None;
    }
    let mut all_ids: Vec<String> = Vec::new();
    let mut projected: Vec<String> = Vec::new();
    let mut commands: Vec<CommandContribution> = Vec::new();
    let ghost ci = command_items@;
    let mut i: usize = 0;
    proof {
        assert(ci.take(0) =~= Seq::<JsonValue>::empty());
        assert(strs_view(all_ids@) =~= Seq::<Seq<char>>::empty());
        assert(strs_view(projected@) =~= Seq::<Seq<char>>::empty());
        assert(commands_view(commands@) =~= Seq::<CommandView>::empty());
    }
    while i < command_items.len()
        invariant
            ci == command_items@,
            i <= ci.len(),
            commands_fold(ci) is None ==> tier_1a_spec(jobject(Some(*manifest)).unwrap()) is None,
            commands_fold(ci.take(i as int)) == Some(CmdFold {
                all_ids: strs_view(all_ids@),
                projected: strs_view(projected@),
                commands: commands_view(commands@),
            }),
        decreases ci.len() - i,
    {
        assert(ci.take(i + 1).drop_last() =~= ci.take(i as int));
        assert(ci.take(i + 1).last() == ci[i as int]);
        if !project_command(&command_items[i], &mut all_ids, &mut projected, &mut commands) {
            proof {
                lemma_commands_fold_fails(ci, i as int + 1);
            }
            return None;
        }
        i = i + 1;
    }
    assert(ci.take(ci.len() as int) =~= ci);
    let action_items = match array_items_or_empty(get(cf, "composerActions"), &empty) {
        Some(items) => items,
        None => return None,
    };
    if action_items.len() > MAX_PROJECTED_CONTRIBUTIONS {
        return None;
    }
    let mut actions: Vec<ComposerActionContribution> = Vec::new();
    let ghost ai = action_items@;
    let ghost av = strs_view(all_ids@);
    let ghost pv = strs_view(projected@);
    let mut k: usize = 0;
    proof {
        assert(ai.take(0) =~= Seq::<JsonValue>::empty());
        assert(actions_view(actions@) =~= Seq::<ActionView>::empty());
    }
    while k < action_items.len()
        invariant
            ai == action_items@,
            k <= ai.len(),
            actions_fold(av, pv, ai) is None ==> tier_1a_spec(jobject(Some(*manifest)).unwrap()) is None,
            av == strs_view(all_ids@),
            pv == strs_view(projected@),
            actions_fold(av, pv, ai.take(k as int)) == Some(actions_view(actions@)),
        decreases ai.len() - k,
    {
        assert(ai.take(k + 1).drop_last() =~= ai.take(k as int));
        assert(ai.take(k + 1).last() == ai[k as int]);
        if !project_action(&action_items[k], &all_ids, &projected, &mut actions) {
            proof {
                lemma_actions_fold_fails(av, pv, ai, k as int + 1);
            }
            return None;
        }
        k = k + 1;
    }
    assert(ai.take(ai.len() as int) =~= ai);
    Some((name, commands, actions))
}

/// Once the command pass fails, it fails for every longer prefix.
proof fn lemma_commands_fold_fails(items: Seq<JsonValue>, k: int)
    requires
        0 < k <= items.len(),
        commands_fold(items.take(k)) is None,
    ensures
        commands_fold(items) is None,
    decreases items.len() - k,
{
    if k < items.len() {
        assert(items.take(k + 1).drop_last() =~= items.take(k));
        lemma_commands_fold_fails(items, k + 1);
    } else {
        assert(items.take(k) =~= items);
    }
}

/// Once the action pass fails, it fails for every longer prefix.
proof fn lemma_actions_fold_fails(all: Seq<Seq<char>>, projected: Seq<Seq<char>>, items: Seq<JsonValue>, k: int)
    requires
        0 < k <= items.len(),
        actions_fold(all, projected, items.take(k)) is None,
    ensures
        actions_fold(all, projected, items) is None,
    decreases items.len() - k,
{
    if k < items.len() {
        assert(items.take(k + 1).drop_last() =~= items.take(k));
        lemma_actions_fold_fails(all, projected, items, k + 1);
    } else {
        assert(items.take(k) =~= items);
    }
}

// ---------------------------------------------------------------------------
// Whole-manifest validation

/// The outcome of checking the manifest against the bundled JSON schema.
#[derive(Clone, Copy, Debug, PartialEq, Eq, Structural)]
pub enum SchemaVerdict {
    Valid,
    Invalid,
    Unavailable,
}

pub struct ManifestView {
    pub id: Seq<char>,
    pub name: Seq<char>,
    pub commands: Seq<CommandView>,
    pub composer_actions: Seq<ActionView>,
    pub piui_engine_range: Seq<char>,
    pub pi_engine_range: Option<Seq<char>>,
    pub host_api_engine_range: Option<Seq<char>>,
    pub has_required_features: bool,
    pub requested_permissions: Seq<Seq<char>>,
    pub source: PackageSource,
}

impl View for ValidatedManifest {
    type V = ManifestView;

    open spec fn view(&self) -> ManifestView {
        ManifestView {
            id: self.id@,
            name: self.name@,
            commands: commands_view(self.commands@),
            composer_actions: actions_view(self.composer_actions@),
            piui_engine_range: self.piui_engine_range@,
            pi_engine_range: opt_view(self.pi_engine_range),
            host_api_engine_range: opt_view(self.host_api_engine_range),
            has_required_features: self.has_required_features,
            requested_permissions: strs_view(self.requested_permissions@),
            source: self.source,
        }
    }
}

pub open spec fn opt_manifest_view(m: Option<ValidatedManifest>) -> Option<ManifestView> {
    match m {
        Some(m) => Some(m@),
        None => None,
    }
}

/// Codes of the semantic checks, in the order they run: contribution ids,
/// entrypoints, rich views, the shell source rule, then the projection.
pub open spec fn semantic_codes(
    fs: Seq<(String, JsonValue)>,
    manifest_id: Seq<char>,
    res: Seq<(String, EntrypointStatus)>,
    source: PackageSource,
) -> Seq<DiagnosticCode> {
    let perms = string_set_spec(fields_get(fs, "permissions"@));
    let entry = fields_get(fs, "entrypoints"@);
    let contributes = fields_get(fs, "contributes"@);
    let c1 = contribution_id_codes(Seq::empty(), contributes, manifest_id);
    let c2 = entrypoint_codes(c1, entrypoint_paths_spec(entry), res);
    let c3 = rich_view_codes(c2, contributes, entry, perms);
    let c4 = if perms.contains("ui.shell"@) && source != PackageSource::TrustedInstalled {
        push_code(c3, DiagnosticCode::ShellSourceRejected)
    } else {
        c3
    };
    if tier_1a_spec(fs) is None || compat_spec(fs) is None {
        push_code(c4, DiagnosticCode::ContributionProjectionInvalid)
    } else {
        c4
    }
}

/// The validated manifest, when every check passed.
pub open spec fn semantic_manifest(
    fs: Seq<(String, JsonValue)>,
    manifest_id: Seq<char>,
    res: Seq<(String, EntrypointStatus)>,
    source: PackageSource,
) -> Option<ManifestView> {
    match (tier_1a_spec(fs), compat_spec(fs)) {
        (Some((name, commands, actions)), Some((piui, pi, host, required))) => if semantic_codes(fs, manifest_id, res, source).len() == 0 {
            Some(ManifestView {
                id: manifest_id,
                name,
                commands,
                composer_actions: actions,
                piui_engine_range: piui,
                pi_engine_range: pi,
                host_api_engine_range: host,
                has_required_features: required,
                requested_permissions: string_set_spec(fields_get(fs, "permissions"@)),
                source,
            })
        } else {
            None
        },
        _ => None,
    }
}

/// The report for a parsed manifest: the schema verdict first, then an
/// object with a string `id`, then the semantic checks.
pub open spec fn manifest_outcome(
    value: JsonValue,
    verdict: SchemaVerdict,
    res: Seq<(String, EntrypointStatus)>,
    source: PackageSource,
) -> (Option<ManifestView>, Seq<DiagnosticCode>) {
    match verdict {
        SchemaVerdict::Unavailable => (None, seq![DiagnosticCode::SchemaUnavailable]),
        SchemaVerdict::Invalid => (None, seq![DiagnosticCode::SchemaInvalid]),
        SchemaVerdict::Valid => match jobject(Some(value)) {
            None => (None, seq![DiagnosticCode::SchemaInvalid]),
            Some(fs) => match jstr(fields_get(fs, "id"@)) {
                None => (None, seq![DiagnosticCode::SchemaInvalid]),
                Some(mid) => (semantic_manifest(fs, mid, res, source), semantic_codes(fs, mid, res, source)),
            },
        },
    }
}

/// The report for manifest bytes: bytes that are not JSON are reported as
/// such before anything else.
pub open spec fn validation_spec(
    bytes: Seq<u8>,
    verdict: SchemaVerdict,
    res: Seq<(String, EntrypointStatus)>,
    source: PackageSource,
) -> (Option<ManifestView>, Seq<DiagnosticCode>) {
    match serde_json_from_slice(bytes) {
        None => (None, seq![DiagnosticCode::ManifestJsonInvalid]),
        Some(value) => manifest_outcome(value, verdict, res, source),
    }
}

/// Validates manifest bytes of a package whose root was already resolved.
/// `schema` is the bundled schema's verdict on the parsed manifest, and
/// `resolutions` what resolving each lexically valid entrypoint found.
pub fn validate_bytes_at_root(
    manifest_bytes: &[u8],
    schema: SchemaVerdict,
    resolutions: &[(String, EntrypointStatus)],
    source: PackageSource,
) -> (r: ValidationReport)
    ensures
        messages_fixed(r.diagnostics@),
        (opt_manifest_view(r.manifest), codes_of(r.diagnostics@)) == validation_spec(manifest_bytes@, schema, resolutions@, source),
{
    let value = match parse_json_bytes(manifest_bytes) {
        Some(v) => v,
        None => return report(DiagnosticCode::ManifestJsonInvalid),
    };
    match schema {
        SchemaVerdict::Unavailable => return report(DiagnosticCode::SchemaUnavailable),
        SchemaVerdict::Invalid => return report(DiagnosticCode::SchemaInvalid),
        SchemaVerdict::Valid => {},
    }
    if as_object(Some(&value)).is_none() {
        return report(DiagnosticCode::SchemaInvalid);
    }
    let ghost fs = jobject(Some(value)).unwrap();
    let manifest_id = match as_str(get(&value, "id")) {
        Some(id) => id,
        None => return report(DiagnosticCode::SchemaInvalid),
    };
    let permissions = string_set(get(&value, "permissions"));
    let entrypoints = get(&value, "entrypoints");
    let contributes = get(&value, "contributes");
    let mut diagnostics: Vec<ManifestDiagnostic> = Vec::new();
    assert(codes_of(diagnostics@) =~= Seq::<DiagnosticCode>::empty());
    validate_contribution_ids(contributes, manifest_id, &mut diagnostics);
    validate_entrypoints(entrypoints, resolutions, &mut diagnostics);
    validate_rich_views(contributes, entrypoints, &permissions, &mut diagnostics);
    proof {
        reveal_strlit("ui.shell");
    }
    if contains_string(&permissions, "ui.shell") && source != PackageSource::TrustedInstalled {
        push(&mut diagnostics, DiagnosticCode::ShellSourceRejected);
    }
    let compatibility = project_compatibility(&value);
    let projection = project_tier_1a_contributions(&value);
    if projection.is_none() || compatibility.is_none() {
        push(&mut diagnostics, DiagnosticCode::ContributionProjectionInvalid);
    }
    assert(codes_of(diagnostics@) == semantic_codes(fs, manifest_id@, resolutions@, source));
    if diagnostics.len() == 0 {
        match (projection, compatibility) {
            (Some((name, commands, composer_actions)), Some((piui_engine_range, pi_engine_range, host_api_engine_range, has_required_features))) => {
                let manifest = ValidatedManifest {
                    id: manifest_id.to_owned(),
                    name,
                    commands,
                    composer_actions,
                    piui_engine_range,
                    pi_engine_range,
                    host_api_engine_range,
                    has_required_features,
                    requested_permissions: permissions,
                    source,
                };
                return ValidationReport { manifest: Some(manifest), diagnostics };
            },
            _ => {},
        }
    }
    ValidationReport { manifest: None, diagnostics }
}

/// Validates supplied manifest bytes; more than `MAX_MANIFEST_BYTES` is
/// refused before parsing.
pub fn validate_bytes(
    manifest_bytes: &[u8],
    schema: SchemaVerdict,
    resolutions: &[(String, EntrypointStatus)],
    source: PackageSource,
) -> (r: ValidationReport)
    ensures
        messages_fixed(r.diagnostics@),
        manifest_bytes@.len() > MAX_MANIFEST_BYTES ==> r.manifest is None && codes_of(r.diagnostics@) == seq![DiagnosticCode::ManifestTooLarge],
        manifest_bytes@.len() <= MAX_MANIFEST_BYTES ==> (opt_manifest_view(r.manifest), codes_of(r.diagnostics@)) == validation_spec(manifest_bytes@, schema, resolutions@, source),
{
    if manifest_bytes.len() > MAX_MANIFEST_BYTES {
        return report(DiagnosticCode::ManifestTooLarge);
    }
    validate_bytes_at_root(manifest_bytes, schema, resolutions, source)
}

} // verus!
