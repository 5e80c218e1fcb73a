//! Bound session files: the capability a trusted host holds to re-read one
//! indexed source, and the checks of a bounded, identity-bound read of it.
//! The host opens files and reads bytes; every decision about what it
//! observed is made here.
use vstd::prelude::*;
use crate::catalog::IndexError;
use crate::catalog_stream::{
    PlatformFileIdentity, identity_from_text, RevisionHasher, hasher_new, hasher_update,
    hasher_finish, hasher_absorbed, DISCOVERY_HEADER_PREFIX_BYTES,
};
use crate::report::ScanReport;
use crate::scan::{sha256_hex_of, PREVIEW_LIMIT};
use crate::scanner::{scan_bytes, scan_bytes_for_display_with_root};
use crate::text::{split_on, split_str, str_eq, safe_text, safe_text_spec, push_str, opt_view};

verus! {

// ---------------------------------------------------------------------------
// Paths

/// The last name among `/`-separated segments: empty and `.` segments are
/// no component, and a trailing `..` has no name.
pub open spec fn last_name(segments: Seq<Seq<char>>) -> Option<Seq<char>>
    decreases segments.len(),
{
    if segments.len() == 0 {
        None
    } else if segments.last() == ""@ || segments.last() == "."@ {
        last_name(segments.drop_last())
    } else if segments.last() == ".."@ {
        None
    } else {
        Some(segments.last())
    }
}

/// The file name of a Unix path: its last component, unless that is `..`
/// or the path has none.
pub open spec fn file_name_spec(path: Seq<char>) -> Option<Seq<char>> {
    last_name(split_on(path, '/'))
}

pub fn file_name(path: &str) -> (r: Option<String>)
    ensures
        opt_view(r) == file_name_spec(path@),
{
    let segments = split_str(path, '/');
    let ghost sv = segments@.map_values(|f: String| f@);
    let mut i = segments.len();
    assert(sv.take(i as int) =~= sv);
    while i > 0
        invariant
            i <= segments@.len(),
            sv == segments@.map_values(|f: String| f@),
            sv == split_on(path@, '/'),
            last_name(sv) == last_name(sv.take(i as int)),
        decreases i,
    {
        let segment = segments[i - 1].as_str();
        assert(sv.take(i as int).last() == segment@);
        assert(sv.take(i as int).drop_last() =~= sv.take(i - 1));
        if str_eq(segment, "") || str_eq(segment, ".") {
            i = i - 1;
        } else if str_eq(segment, "..") {
            return None;
        } else {
            return Some(segments[i - 1].clone());
        }
    }
    None
}

/// The name a scan of `path` reports: its file name, else `session.jsonl`.
pub open spec fn source_name_spec(path: Seq<char>) -> Seq<char> {
    match file_name_spec(path) {
        Some(n) => n,
        None => "session.jsonl"@,
    }
}

pub fn source_name_of(path: &str) -> (r: String)
    ensures
        r@ == source_name_spec(path@),
{
    match file_name(path) {
        Some(n) => n,
        None => String::from_str("session.jsonl"),
    }
}

/// The display label of a path: its normalized file name, else `Project`.
pub open spec fn display_leaf(path: Seq<char>) -> Seq<char> {
    match file_name_spec(path) {
        Some(n) => if safe_text_spec(n, PREVIEW_LIMIT as nat).len() > 0 {
            safe_text_spec(n, PREVIEW_LIMIT as nat)
        } else {
            "Project"@
        },
        None => "Project"@,
    }
}

/// A path for display that reveals no more than its last name: `…/` and
/// that name, normalized.
pub fn safe_display_path(path: &str) -> (r: String)
    ensures
        r@ == "…/"@ + display_leaf(path@),
{
    let leaf = match file_name(path) {
        Some(n) => {
            let s = safe_text(n.as_str(), PREVIEW_LIMIT);
            if s.as_str().is_empty() {
                String::from_str("Project")
            } else {
                s
            }
        },
        None => String::from_str("Project"),
    };
    let mut out = String::new();
    push_str(&mut out, "…/");
    push_str(&mut out, leaf.as_str());
    out
}

// ---------------------------------------------------------------------------
// Observations

/// What the host observed of an opened file: its native identity, its length
/// and its modification time as (seconds, nanoseconds) since the epoch
/// (`None` when unavailable or before the epoch).
#[derive(Clone, Copy, Debug)]
pub struct FileObservation {
    pub identity: PlatformFileIdentity,
    pub length: u64,
    pub modified: Option<(u64, u32)>,
}

/// A modification time in nanoseconds, when it fits an `i64`.
pub open spec fn stamp_spec(modified: Option<(u64, u32)>) -> Option<i64> {
    match modified {
        Some((secs, nanos)) => if secs * 1_000_000_000 + nanos <= i64::MAX {
            Some((secs * 1_000_000_000 + nanos) as i64)
        } else {
            None
        },
        None => None,
    }
}

pub fn metadata_stamp(modified: Option<(u64, u32)>) -> (r: Option<i64>)
    ensures
        r == stamp_spec(modified),
{
    match modified {
        Some((secs, nanos)) => {
            if secs > 9_223_372_036u64 {
                return None;
            }
            let total: u64 = secs * 1_000_000_000 + nanos as u64;
            if total > 9_223_372_036_854_775_807u64 {
                None
            } else {
                Some(total as i64)
            }
        },
        None => None,
    }
}

// ---------------------------------------------------------------------------
// Bound session files

/// A session path confined to trusted host code, bound to the identity and
/// revision recorded when it was indexed, and to the byte limit of the read
/// that observed it.
pub struct HostSessionFile {
    path: String,
    expected_identity: Option<PlatformFileIdentity>,
    expected_revision: Option<String>,
    verification_limit: Option<usize>,
}

pub struct HostSessionFileView {
    pub path: Seq<char>,
    pub identity: Option<PlatformFileIdentity>,
    pub revision: Option<Seq<char>>,
    pub limit: Option<usize>,
}

impl View for HostSessionFile {
    type V = HostSessionFileView;

    closed spec fn view(&self) -> HostSessionFileView {
        HostSessionFileView {
            path: self.path@,
            identity: self.expected_identity,
            revision: opt_view(self.expected_revision),
            limit: self.verification_limit,
        }
    }
}

impl HostSessionFile {
    /// The path, for a read-only rescan by trusted host code only.
    pub fn as_path(&self) -> (r: &str)
        ensures
            r@ == self@.path,
    {
        self.path.as_str()
    }

    pub fn expected_identity(&self) -> (r: Option<PlatformFileIdentity>)
        ensures
            r == self@.identity,
    {
        self.expected_identity
    }

    pub fn expected_revision(&self) -> (r: Option<&str>)
        ensures
            match r {
                Some(s) => self@.revision == Some(s@),
                None => self@.revision is None,
            },
    {
        match &self.expected_revision {
            Some(s) => Some(s.as_str()),
            None => None,
        }
    }

    pub fn verification_limit(&self) -> (r: Option<usize>)
        ensures
            r == self@.limit,
    {
        self.verification_limit
    }

    /// Binds the exact identity, revision and read limit that discovery
    /// observed.
    pub fn from_verified(path: String, identity: PlatformFileIdentity, revision: String, verification_limit: usize) -> (r: Self)
        ensures
            r@ == (HostSessionFileView {
                path: path@,
                identity: Some(identity),
                revision: Some(revision@),
                limit: Some(verification_limit),
            }),
    {
        HostSessionFile {
            path,
            expected_identity: Some(identity),
            expected_revision: Some(revision),
            verification_limit: Some(verification_limit),
        }
    }

    /// Rebinds a stored row: its identity must read back and its revision be
    /// non-empty; the read limit is left to the caller.
    pub fn from_stored(path: String, identity: String, revision: String) -> (r: Result<Self, IndexError>)
        ensures
            match r {
                Ok(f) => {
                    &&& identity_from_text(identity@) is Some
                    &&& revision@.len() > 0
                    &&& f@ == (HostSessionFileView {
                        path: path@,
                        identity: identity_from_text(identity@),
                        revision: Some(revision@),
                        limit: None,
                    })
                },
                Err(e) => e == IndexError::SessionIdentityUnavailable
                    && (identity_from_text(identity@) is None || revision@.len() == 0),
            },
    {
        let expected_identity = match PlatformFileIdentity::from_storage(identity.as_str()) {
            Some(i) => i,
            None => return Err(IndexError::SessionIdentityUnavailable),
        };
        if revision.as_str().is_empty() {
            return Err(IndexError::SessionIdentityUnavailable);
        }
        Ok(HostSessionFile {
            path,
            expected_identity: Some(expected_identity),
            expected_revision: Some(revision),
            verification_limit: None,
        })
    }
}

// ---------------------------------------------------------------------------
// Errors

/// Failures of reading one explicit session file.
#[derive(Clone, Copy, Debug, PartialEq, Eq, Structural)]
pub enum ScanError {
    NotRegularFile,
    Read,
}

/// Failures of a bounded, identity-bound rescan. None carries a path.
#[derive(Clone, Copy, Debug, PartialEq, Eq, Structural)]
pub enum BoundedScanError {
    InvalidByteLimit,
    Symlink,
    NotRegularFile,
    IdentityUnavailable,
    Changed,
    RevisionMismatch,
    FileTooLarge { limit: usize },
    Read,
}

/// Failures of verifying a cached revision against its project.
#[derive(Clone, Copy, Debug, PartialEq, Eq, Structural)]
pub enum ProjectRevisionVerificationError {
    File(BoundedScanError),
    ProjectUnavailable,
    HeaderProjectMismatch,
}

/// Failures of a project-bound rescan.
#[derive(Clone, Copy, Debug, PartialEq, Eq, Structural)]
pub enum ProjectBoundedScanError {
    File(BoundedScanError),
    ProjectUnavailable,
    HeaderProjectMismatch,
}

/// What opening a path without following links decides: a link is refused,
/// and so is anything but a regular file, at the path or at the handle.
pub fn check_no_follow_open(path_is_symlink: bool, path_is_file: bool, handle_is_file: bool) -> (r: Result<(), BoundedScanError>)
    ensures
        r == (if path_is_symlink {
            Err(BoundedScanError::Symlink)
        } else if !path_is_file || !handle_is_file {
            Err(BoundedScanError::NotRegularFile)
        } else {
            Ok(())
        }),
{
    if path_is_symlink {
        Err(BoundedScanError::Symlink)
    } else if !path_is_file || !handle_is_file {
        Err(BoundedScanError::NotRegularFile)
    } else {
        Ok(())
    }
}


// ---------------------------------------------------------------------------
// Bounded rescans

/// The report a rescan of `bytes` gives: the display projection when
/// `display_detail` is set, the plain scan otherwise.
pub open spec fn rescan_report_spec(source_name: Seq<char>, bytes: Seq<u8>, display_detail: bool, root: Option<Seq<char>>) -> crate::report::ReportView {
    if display_detail {
        crate::report::ReportView {
            timeline_blocks: crate::semantic::semantic_blocks_spec(bytes, root),
            ..crate::scanner::scan_report_spec(source_name, bytes)
        }
    } else {
        crate::scanner::scan_report_spec(source_name, bytes)
    }
}

/// What a bounded rescan checks, in the order of the host's reads.
pub struct BoundedScanView {
    pub identity: PlatformFileIdentity,
    pub revision: Option<Seq<char>>,
    pub max_bytes: usize,
    pub opened: Option<(PlatformFileIdentity, u64, Option<(u64, u32)>)>,
}

pub open spec fn observed(o: FileObservation) -> (PlatformFileIdentity, u64, Option<(u64, u32)>) {
    (o.identity, o.length, o.modified)
}

/// A bounded rescan of one bound session file.
pub struct BoundedScan {
    expected_identity: PlatformFileIdentity,
    expected_revision: Option<String>,
    max_bytes: usize,
    opened: Option<FileObservation>,
}

impl View for BoundedScan {
    type V = BoundedScanView;

    closed spec fn view(&self) -> BoundedScanView {
        BoundedScanView {
            identity: self.expected_identity,
            revision: opt_view(self.expected_revision),
            max_bytes: self.max_bytes,
            opened: match self.opened {
                Some(o) => Some(observed(o)),
                None => None,
            },
        }
    }
}

/// A read limit is usable when it is neither zero nor the largest size.
pub open spec fn valid_limit(max_bytes: usize) -> bool {
    max_bytes != 0 && max_bytes != usize::MAX
}

impl BoundedScan {
    /// Starts a rescan of `file` reading at most `max_bytes`. With
    /// `require_revision` the content must still be the indexed revision.
    pub fn begin(file: &HostSessionFile, max_bytes: usize, require_revision: bool) -> (r: Result<BoundedScan, BoundedScanError>)
        ensures
            match r {
                Ok(s) => {
                    &&& valid_limit(max_bytes)
                    &&& file@.identity is Some
                    &&& require_revision ==> file@.revision is Some
                    &&& s@ == (BoundedScanView {
                        identity: file@.identity->0,
                        revision: if require_revision { file@.revision } else { None },
                        max_bytes,
                        opened: None,
                    })
                },
                Err(e) => if !valid_limit(max_bytes) {
                    e == BoundedScanError::InvalidByteLimit
                } else {
                    e == BoundedScanError::IdentityUnavailable
                        && (file@.identity is None || (require_revision && file@.revision is None))
                },
            },
    {
        if max_bytes == 0 || max_bytes == usize::MAX {
            return Err(BoundedScanError::InvalidByteLimit);
        }
        let expected_identity = match file.expected_identity() {
            Some(i) => i,
            None => return Err(BoundedScanError::IdentityUnavailable),
        };
        let expected_revision = if require_revision {
            match file.expected_revision() {
                Some(rev) => Some(rev.to_owned()),
                None => return Err(BoundedScanError::IdentityUnavailable),
            }
        } else {
            None
        };
        Ok(BoundedScan { expected_identity, expected_revision, max_bytes, opened: None })
    }

    /// The handle the host opened: it must be the indexed file, no longer
    /// than the limit.
    pub fn opened(&mut self, handle: FileObservation) -> (r: Result<(), BoundedScanError>)
        ensures
            r == (if handle.identity != old(self)@.identity {
                Err(BoundedScanError::Changed)
            } else if handle.length > old(self)@.max_bytes {
                Err(BoundedScanError::FileTooLarge { limit: old(self)@.max_bytes })
            } else {
                Ok(())
            }),
            r is Ok ==> final(self)@ == (BoundedScanView { opened: Some(observed(handle)), ..old(self)@ }),
            r is Err ==> final(self)@ == old(self)@,
    {
        if handle.identity != self.expected_identity {
            return Err(BoundedScanError::Changed);
        }
        if handle.length > self.max_bytes as u64 {
            return Err(BoundedScanError::FileTooLarge { limit: self.max_bytes });
        }
        self.opened = Some(handle);
        Ok(())
    }

    /// The bytes read through the handle (at most one past the limit),
    /// scanned; content past the limit, or a revision other than the
    /// indexed one when one is required, is refused.
    pub fn scanned(&self, source_name: &str, bytes: &[u8], display_detail: bool, display_root: Option<&str>) -> (r: Result<ScanReport, BoundedScanError>)
        ensures
            bytes@.len() > self@.max_bytes ==> r == Err::<ScanReport, BoundedScanError>(BoundedScanError::FileTooLarge { limit: self@.max_bytes }),
            bytes@.len() <= self@.max_bytes ==> {
                let report = rescan_report_spec(source_name@, bytes@, display_detail, crate::json::str_view(display_root));
                match self@.revision {
                    Some(rev) if report.file_revision != rev => r == Err::<ScanReport, BoundedScanError>(BoundedScanError::RevisionMismatch),
                    _ => r matches Ok(rep) && rep@ == report,
                }
            },
    {
        if bytes.len() > self.max_bytes {
            return Err(BoundedScanError::FileTooLarge { limit: self.max_bytes });
        }
        let report = if display_detail {
            scan_bytes_for_display_with_root(source_name, bytes, display_root)
        } else {
            scan_bytes(source_name, bytes)
        };
        match &self.expected_revision {
            Some(rev) => {
                if !str_eq(report.file_revision.as_str(), rev.as_str()) {
                    return Err(BoundedScanError::RevisionMismatch);
                }
            },
            None => {},
        }
        Ok(report)
    }

    /// The path reopened after the read: it must still be the indexed file,
    /// as long as what was read, and (when the opened handle knew its
    /// modification time) unmodified. The report then carries that time.
    pub fn confirmed(&self, report: ScanReport, read_len: usize, reopened: FileObservation) -> (r: Result<ScanReport, BoundedScanError>)
        requires
            self@.opened is Some,
        ensures
            ({
                let (_, _, opened_modified) = self@.opened->0;
                if reopened.identity != self@.identity {
                    r == Err::<ScanReport, BoundedScanError>(BoundedScanError::Changed)
                } else if reopened.length != read_len || (opened_modified is Some && reopened.modified != opened_modified) {
                    r == Err::<ScanReport, BoundedScanError>(BoundedScanError::Changed)
                } else {
                    r matches Ok(rep) && rep@ == (crate::report::ReportView { source_modified: reopened.modified, ..report@ })
                }
            }),
    {
        let opened = match self.opened {
            Some(o) => o,
            None => return Err(BoundedScanError::Changed),
        };
        if reopened.identity != self.expected_identity {
            return Err(BoundedScanError::Changed);
        }
        let modified_differs = match (opened.modified, reopened.modified) {
            (Some(a), Some(b)) => a.0 != b.0 || a.1 != b.1,
            (Some(_), None) => true,
            (None, _) => false,
        };
        if reopened.length != read_len as u64 || modified_differs {
            return Err(BoundedScanError::Changed);
        }
        let mut report = report;
        report.source_modified = reopened.modified;
        Ok(report)
    }
}

/// What a whole bounded rescan of `file` gives, when the host runs the steps
/// of `BoundedScan` in order: it starts with the limit and the indexed
/// identity (and revision, when required), opens a handle `handle`, reads
/// `bytes` through it, scans them and reopens the path as `reopened`.
pub open spec fn bounded_rescan_spec(
    file: HostSessionFileView,
    max_bytes: usize,
    require_revision: bool,
    handle: FileObservation,
    bytes: Seq<u8>,
    reopened: FileObservation,
    source_name: Seq<char>,
    display_detail: bool,
    root: Option<Seq<char>>,
) -> Result<crate::report::ReportView, BoundedScanError> {
    let report = rescan_report_spec(source_name, bytes, display_detail, root);
    if !valid_limit(max_bytes) {
        Err(BoundedScanError::InvalidByteLimit)
    } else if file.identity is None || (require_revision && file.revision is None) {
        Err(BoundedScanError::IdentityUnavailable)
    } else if handle.identity != file.identity->0 {
        Err(BoundedScanError::Changed)
    } else if handle.length > max_bytes {
        Err(BoundedScanError::FileTooLarge { limit: max_bytes })
    } else if bytes.len() > max_bytes {
        Err(BoundedScanError::FileTooLarge { limit: max_bytes })
    } else if require_revision && report.file_revision != file.revision->0 {
        Err(BoundedScanError::RevisionMismatch)
    } else if reopened.identity != file.identity->0 {
        Err(BoundedScanError::Changed)
    } else if reopened.length != bytes.len() || (handle.modified is Some && reopened.modified != handle.modified) {
        Err(BoundedScanError::Changed)
    } else {
        Ok(crate::report::ReportView { source_modified: reopened.modified, ..report })
    }
}

/// The steps of `BoundedScan`, run in order on what the host observed, give
/// exactly `bounded_rescan_spec`.
pub proof fn lemma_bounded_rescan_steps(
    file: HostSessionFileView,
    max_bytes: usize,
    require_revision: bool,
    started: BoundedScanView,
    handle: FileObservation,
    opened: BoundedScanView,
    bytes: Seq<u8>,
    scanned: crate::report::ReportView,
    reopened: FileObservation,
    source_name: Seq<char>,
    display_detail: bool,
    root: Option<Seq<char>>,
)
    requires
        valid_limit(max_bytes),
        file.identity is Some,
        require_revision ==> file.revision is Some,
        started == (BoundedScanView {
            identity: file.identity->0,
            revision: if require_revision { file.revision } else { None },
            max_bytes,
            opened: None,
        }),
        handle.identity == started.identity,
        handle.length <= started.max_bytes,
        opened == (BoundedScanView { opened: Some(observed(handle)), ..started }),
        bytes.len() <= opened.max_bytes,
        scanned == rescan_report_spec(source_name, bytes, display_detail, root),
        match opened.revision {
            Some(rev) => scanned.file_revision == rev,
            None => true,
        },
    ensures
        ({
            let (_, _, opened_modified) = opened.opened->0;
            bounded_rescan_spec(file, max_bytes, require_revision, handle, bytes, reopened, source_name, display_detail, root)
                == if reopened.identity != opened.identity {
                    Err(BoundedScanError::Changed)
                } else if reopened.length != bytes.len() || (opened_modified is Some && reopened.modified != opened_modified) {
                    Err(BoundedScanError::Changed)
                } else {
                    Ok(crate::report::ReportView { source_modified: reopened.modified, ..scanned })
                }
        }),
{
}

/// A bounded rescan that succeeds read the indexed file, no longer than the
/// limit, through a handle to that file, and found the path still that file,
/// as long as what was read and (when the handle knew it) with the same
/// modification time: nothing was written meanwhile. Its report is the
/// scan of the bytes read, carrying that modification time, and reproduces
/// the indexed revision when one was required. Without that requirement an
/// appended file is read as it is now and the revision is never refused.
pub proof fn lemma_bounded_rescan(
    file: HostSessionFileView,
    max_bytes: usize,
    require_revision: bool,
    handle: FileObservation,
    bytes: Seq<u8>,
    reopened: FileObservation,
    source_name: Seq<char>,
    display_detail: bool,
    root: Option<Seq<char>>,
)
    ensures
        bounded_rescan_spec(file, max_bytes, require_revision, handle, bytes, reopened, source_name, display_detail, root)
            matches Ok(rep) ==> {
            &&& valid_limit(max_bytes)
            &&& file.identity == Some(handle.identity)
            &&& reopened.identity == handle.identity
            &&& handle.length <= max_bytes
            &&& bytes.len() <= max_bytes
            &&& reopened.length == bytes.len()
            &&& (handle.modified is Some ==> reopened.modified == handle.modified)
            &&& (require_revision ==> file.revision == Some(rep.file_revision))
            &&& rep == crate::report::ReportView {
                source_modified: reopened.modified,
                ..rescan_report_spec(source_name, bytes, display_detail, root)
            }
            &&& rep.file_revision == crate::scanner::scan_report_spec(source_name, bytes).file_revision
        },
        !require_revision ==> bounded_rescan_spec(file, max_bytes, require_revision, handle, bytes, reopened, source_name, display_detail, root)
            != Err::<crate::report::ReportView, BoundedScanError>(BoundedScanError::RevisionMismatch),
{
}

// ---------------------------------------------------------------------------
// Streamed revision verification

/// The bytes absorbed so far, with a bounded copy of their start.
pub struct StreamedRevisionView {
    pub identity: PlatformFileIdentity,
    pub max_bytes: usize,
    pub opened: Option<(PlatformFileIdentity, u64, Option<(u64, u32)>)>,
    pub absorbed: Seq<u8>,
    pub prefix: Seq<u8>,
    pub total: usize,
}

pub open spec fn saturating_len(n: nat) -> usize {
    if n <= usize::MAX { n as usize } else { usize::MAX }
}

pub open spec fn prefix_of(bytes: Seq<u8>) -> Seq<u8> {
    if bytes.len() <= DISCOVERY_HEADER_PREFIX_BYTES {
        bytes
    } else {
        bytes.take(DISCOVERY_HEADER_PREFIX_BYTES as int)
    }
}

/// Verifying a bound source's revision by hashing it in chunks, without
/// keeping more than its header prefix.
pub struct StreamedRevision {
    expected_identity: PlatformFileIdentity,
    max_bytes: usize,
    opened: Option<FileObservation>,
    hasher: RevisionHasher,
    prefix: Vec<u8>,
    total: usize,
}

impl View for StreamedRevision {
    type V = StreamedRevisionView;

    closed spec fn view(&self) -> StreamedRevisionView {
        StreamedRevisionView {
            identity: self.expected_identity,
            max_bytes: self.max_bytes,
            opened: match self.opened {
                Some(o) => Some(observed(o)),
                None => None,
            },
            absorbed: hasher_absorbed(self.hasher),
            prefix: self.prefix@,
            total: self.total,
        }
    }
}

impl StreamedRevision {
    /// The prefix is the bounded start of what was absorbed, and the total
    /// its saturated length.
    pub closed spec fn wf(&self) -> bool {
        &&& self.prefix@ == prefix_of(hasher_absorbed(self.hasher))
        &&& self.total == saturating_len(hasher_absorbed(self.hasher).len())
    }

    pub fn begin(file: &HostSessionFile, max_bytes: usize) -> (r: Result<StreamedRevision, BoundedScanError>)
        ensures
            match r {
                Ok(s) => {
                    &&& valid_limit(max_bytes)
                    &&& s.wf()
                    &&& file@.identity is Some
                    &&& s@ == (StreamedRevisionView {
                        identity: file@.identity->0,
                        max_bytes,
                        opened: None,
                        absorbed: Seq::empty(),
                        prefix: Seq::empty(),
                        total: 0,
                    })
                },
                Err(e) => if !valid_limit(max_bytes) {
                    e == BoundedScanError::InvalidByteLimit
                } else {
                    e == BoundedScanError::IdentityUnavailable && file@.identity is None
                },
            },
    {
        if max_bytes == 0 || max_bytes == usize::MAX {
            return Err(BoundedScanError::InvalidByteLimit);
        }
        let expected_identity = match file.expected_identity() {
            Some(i) => i,
            None => return Err(BoundedScanError::IdentityUnavailable),
        };
        let r = StreamedRevision {
            expected_identity,
            max_bytes,
            opened: None,
            hasher: hasher_new(),
            prefix: Vec::new(),
            total: 0,
        };
        assert(r.prefix@ =~= prefix_of(Seq::<u8>::empty()));
        Ok(r)
    }

    /// The handle the host opened: it must be the bound file, no longer than
    /// the limit.
    pub fn opened(&mut self, handle: FileObservation) -> (r: Result<(), BoundedScanError>)
        requires
            old(self).wf(),
        ensures
            final(self).wf(),
            r == (if handle.identity != old(self)@.identity {
                Err(BoundedScanError::Changed)
            } else if handle.length > old(self)@.max_bytes {
                Err(BoundedScanError::FileTooLarge { limit: old(self)@.max_bytes })
            } else {
                Ok(())
            }),
            r is Ok ==> final(self)@ == (StreamedRevisionView { opened: Some(observed(handle)), ..old(self)@ }),
            r is Err ==> final(self)@ == old(self)@,
    {
        if handle.identity != self.expected_identity {
            return Err(BoundedScanError::Changed);
        }
        if handle.length > self.max_bytes as u64 {
            return Err(BoundedScanError::FileTooLarge { limit: self.max_bytes });
        }
        self.opened = Some(handle);
        Ok(())
    }

    /// Absorbs the next chunk read from the handle.
    pub fn feed(&mut self, chunk: &[u8])
        requires
            old(self).wf(),
        ensures
            final(self).wf(),
            final(self)@ == (StreamedRevisionView {
                absorbed: old(self)@.absorbed + chunk@,
                prefix: prefix_of(old(self)@.absorbed + chunk@),
                total: saturating_len((old(self)@.absorbed + chunk@).len()),
                ..old(self)@
            }),
    {
        let ghost before = hasher_absorbed(self.hasher);
        hasher_update(&mut self.hasher, chunk);
        self.total = if self.total > usize::MAX - chunk.len() { usize::MAX } else { self.total + chunk.len() };
        let remaining = DISCOVERY_HEADER_PREFIX_BYTES - if self.prefix.len() < DISCOVERY_HEADER_PREFIX_BYTES {
            self.prefix.len()
        } else {
            DISCOVERY_HEADER_PREFIX_BYTES
        };
        let take = if chunk.len() < remaining { chunk.len() } else { remaining };
        let mut i: usize = 0;
        let mut extra: Vec<u8> = Vec::new();
        while i < take
            invariant
                take <= chunk@.len(),
                i <= take,
                extra@ == chunk@.take(i as int),
            decreases take - i,
        {
            extra.push(chunk[i]);
            assert(chunk@.take(i + 1) =~= chunk@.take(i as int).push(chunk@[i as int]));
            i = i + 1;
        }
        self.prefix.append(&mut extra);
        proof {
            let all = before + chunk@;
            if before.len() >= DISCOVERY_HEADER_PREFIX_BYTES {
                assert(take == 0);
                assert(all.take(DISCOVERY_HEADER_PREFIX_BYTES as int) =~= before.take(DISCOVERY_HEADER_PREFIX_BYTES as int));
                assert(self.prefix@ =~= prefix_of(all));
            } else if all.len() <= DISCOVERY_HEADER_PREFIX_BYTES {
                assert(take == chunk@.len());
                assert(chunk@.take(take as int) =~= chunk@);
                assert(self.prefix@ =~= prefix_of(all));
            } else {
                assert(self.prefix@ =~= prefix_of(all));
            }
        }
    }

    /// Reading stopped: more than the limit is refused.
    pub fn read_done(&self) -> (r: Result<(), BoundedScanError>)
        ensures
            r == (if self@.total > self@.max_bytes {
                Err(BoundedScanError::FileTooLarge { limit: self@.max_bytes })
            } else {
                Ok(())
            }),
    {
        if self.total > self.max_bytes {
            Err(BoundedScanError::FileTooLarge { limit: self.max_bytes })
        } else {
            Ok(())
        }
    }

    /// The handle after the read (`after`, whose identity is not consulted)
    /// and the path reopened (`reopened`): the file must still be the one
    /// opened, as long as everything read, and unmodified throughout; then
    /// the digest of everything read must be `expected_revision`. The header
    /// prefix is handed back.
    pub fn confirmed(self, after: FileObservation, reopened: FileObservation, expected_revision: &str) -> (r: Result<Vec<u8>, BoundedScanError>)
        requires
            self.wf(),
            self@.opened is Some,
        ensures
            ({
                let (identity, length, modified) = self@.opened->0;
                if identity != reopened.identity || length != self@.total || length != after.length
                    || length != reopened.length || modified != after.modified || modified != reopened.modified {
                    r == Err::<Vec<u8>, BoundedScanError>(BoundedScanError::Changed)
                } else if sha256_hex_of(self@.absorbed) != expected_revision@ {
                    r == Err::<Vec<u8>, BoundedScanError>(BoundedScanError::RevisionMismatch)
                } else {
                    r matches Ok(p) && p@ == prefix_of(self@.absorbed)
                }
            }),
    {
        let opened = match self.opened {
            Some(o) => o,
            None => return Err(BoundedScanError::Changed),
        };
        let same_after = match (opened.modified, after.modified) {
            (Some(a), Some(b)) => a.0 == b.0 && a.1 == b.1,
            (None, None) => true,
            _ => false,
        };
        let same_final = match (opened.modified, reopened.modified) {
            (Some(a), Some(b)) => a.0 == b.0 && a.1 == b.1,
            (None, None) => true,
            _ => false,
        };
        if opened.identity != reopened.identity || opened.length != self.total as u64 || opened.length != after.length
            || opened.length != reopened.length || !same_after || !same_final {
            return Err(BoundedScanError::Changed);
        }
        let digest = hasher_finish(self.hasher);
        if !str_eq(digest.as_str(), expected_revision) {
            return Err(BoundedScanError::RevisionMismatch);
        }
        Ok(self.prefix)
    }
}

// ---------------------------------------------------------------------------
// Discovery evidence

/// A candidate's bounded header and its weak, re-checkable evidence.
pub struct DiscoveryEvidence {
    pub header_prefix: Vec<u8>,
    pub fingerprint: crate::catalog_stream::SourceFingerprint,
}

pub open spec fn evidence_len(length: u64) -> usize {
    if length <= DISCOVERY_HEADER_PREFIX_BYTES { length as usize } else { DISCOVERY_HEADER_PREFIX_BYTES }
}

/// How much of an opened candidate to read as evidence: the first and the
/// last bytes, each up to the evidence bound. A candidate over the limit is
/// refused.
pub fn evidence_plan(opened: FileObservation, max_file_bytes: usize) -> (r: Result<(usize, usize), BoundedScanError>)
    ensures
        opened.length > max_file_bytes ==> r == Err::<(usize, usize), BoundedScanError>(BoundedScanError::FileTooLarge { limit: max_file_bytes }),
        opened.length <= max_file_bytes ==> r == Ok::<(usize, usize), BoundedScanError>((evidence_len(opened.length), evidence_len(opened.length))),
{
    if opened.length > max_file_bytes as u64 {
        return Err(BoundedScanError::FileTooLarge { limit: max_file_bytes });
    }
    let n: usize = if opened.length <= DISCOVERY_HEADER_PREFIX_BYTES as u64 {
        opened.length as usize
    } else {
        DISCOVERY_HEADER_PREFIX_BYTES
    };
    Ok((n, n))
}

/// The evidence of a candidate whose prefix and tail were read through the
/// opened handle: the handle after the reads (`after`) and the path reopened
/// (`reopened`) must show the same file, length and modification stamp.
pub fn evidence_confirmed(opened: FileObservation, prefix: Vec<u8>, tail: Vec<u8>, after: FileObservation, reopened: FileObservation) -> (r: Result<DiscoveryEvidence, BoundedScanError>)
    ensures
        ({
            let stamp = stamp_spec(opened.modified);
            if opened.identity != reopened.identity || opened.length != after.length || opened.length != reopened.length
                || stamp != stamp_spec(after.modified) || stamp != stamp_spec(reopened.modified) {
                r is Err && r->Err_0 == BoundedScanError::Changed
            } else {
                r matches Ok(e) && e.header_prefix@ == prefix@
                    && e.fingerprint.identity == opened.identity
                    && e.fingerprint.length == opened.length
                    && e.fingerprint.modified_stamp == stamp
                    && e.fingerprint.continuity_digest@ == sha256_hex_of(crate::catalog_stream::continuity_message(prefix@, tail@, opened.length))
                    && e.fingerprint.parser_version == crate::catalog_stream::DISCOVERY_FINGERPRINT_PARSER_VERSION
            }
        }),
{
    let stamp = metadata_stamp(opened.modified);
    if opened.identity != reopened.identity || opened.length != after.length || opened.length != reopened.length
        || stamp != metadata_stamp(after.modified) || stamp != metadata_stamp(reopened.modified) {
        return Err(BoundedScanError::Changed);
    }
    let fingerprint = crate::catalog_stream::SourceFingerprint::observed(opened.identity, opened.length, stamp, prefix.as_slice(), tail.as_slice());
    Ok(DiscoveryEvidence { header_prefix: prefix, fingerprint })
}


/// A candidate's streamed catalog, confirmed: everything read must be
/// within the limit, and the handle after the read (`after`) and the path
/// reopened (`reopened`) must show the file opened, with the length read and
/// the same modification stamp. The report and the evidence are handed back.
pub fn catalog_confirmed(
    opened: FileObservation,
    evidence: crate::catalog_stream::CatalogEvidence,
    max_file_bytes: usize,
    after: FileObservation,
    reopened: FileObservation,
) -> (r: Result<(ScanReport, crate::catalog_stream::SourceFingerprint), BoundedScanError>)
    ensures
        ({
            let stamp = stamp_spec(opened.modified);
            if evidence.total > max_file_bytes {
                r is Err && r->Err_0 == (BoundedScanError::FileTooLarge { limit: max_file_bytes })
            } else if opened.identity != reopened.identity || opened.length != evidence.total
                || opened.length != after.length || opened.length != reopened.length
                || stamp != stamp_spec(after.modified) || stamp != stamp_spec(reopened.modified) {
                r is Err && r->Err_0 == BoundedScanError::Changed
            } else {
                r matches Ok((report, f)) && report@ == evidence.report@
                    && f.identity == opened.identity
                    && f.length == evidence.total
                    && f.modified_stamp == stamp
                    && f.continuity_digest@ == sha256_hex_of(crate::catalog_stream::continuity_message(evidence.prefix@, evidence.tail@, evidence.total as u64))
                    && f.parser_version == crate::catalog_stream::DISCOVERY_FINGERPRINT_PARSER_VERSION
            }
        }),
{
    if evidence.total > max_file_bytes {
        return Err(BoundedScanError::FileTooLarge { limit: max_file_bytes });
    }
    let stamp = metadata_stamp(opened.modified);
    if opened.identity != reopened.identity || opened.length != evidence.total as u64
        || opened.length != after.length || opened.length != reopened.length
        || stamp != metadata_stamp(after.modified) || stamp != metadata_stamp(reopened.modified) {
        return Err(BoundedScanError::Changed);
    }
    let fingerprint = crate::catalog_stream::SourceFingerprint::observed(
        opened.identity,
        evidence.total as u64,
        stamp,
        evidence.prefix.as_slice(),
        evidence.tail.as_slice(),
    );
    Ok((evidence.report, fingerprint))
}

// ---------------------------------------------------------------------------
// Discovered sessions

/// A matched session's report and the capability to re-read it, with the
/// evidence discovery observed and whether the report is catalog-only (a
/// sidebar report without a tree).
pub struct DiscoveredSession {
    pub file: HostSessionFile,
    pub report: ScanReport,
    pub fingerprint: crate::catalog_stream::SourceFingerprint,
    pub catalog_only: bool,
}

impl DiscoveredSession {
    /// The read limit of its re-verification: the bound one, which must be
    /// set and non-zero.
    pub fn verification_limit(&self) -> (r: Result<usize, IndexError>)
        ensures
            match self.file@.limit {
                Some(l) if l != 0 => r == Ok::<usize, IndexError>(l),
                _ => r == Err::<usize, IndexError>(IndexError::SessionIdentityUnavailable),
            },
    {
        match self.file.verification_limit() {
            Some(l) => if l != 0 {
                Ok(l)
            } else {
                Err(IndexError::SessionIdentityUnavailable)
            },
            None => Err(IndexError::SessionIdentityUnavailable),
        }
    }

    /// A fresh evidence read of the source must match what discovery saw.
    pub fn evidence_unchanged(&self, current: &Result<DiscoveryEvidence, BoundedScanError>) -> (r: Result<(), IndexError>)
        ensures
            match current {
                Ok(e) => if crate::catalog_stream::same_fingerprint_spec(e.fingerprint, self.fingerprint) {
                    r is Ok
                } else {
                    r == Err::<(), IndexError>(IndexError::SessionIdentityChanged)
                },
                Err(_) => r == Err::<(), IndexError>(IndexError::SessionIdentityChanged),
            },
    {
        match current {
            Ok(e) => if e.fingerprint.matches(&self.fingerprint) {
                Ok(())
            } else {
                Err(IndexError::SessionIdentityChanged)
            },
            Err(_) => Err(IndexError::SessionIdentityChanged),
        }
    }

    /// The whole source re-hashed against the report's revision: any failure
    /// means the source changed.
    pub fn revision_verified(self, outcome: Result<Vec<u8>, BoundedScanError>) -> (r: Result<DiscoveredSession, IndexError>)
        ensures
            outcome is Err ==> r == Err::<DiscoveredSession, IndexError>(IndexError::SessionIdentityChanged),
            outcome is Ok ==> (r matches Ok(d) && d.file@ == self.file@ && d.report@ == self.report@
                && d.fingerprint == self.fingerprint && d.catalog_only == self.catalog_only),
    {
        match outcome {
            Ok(_) => Ok(self),
            Err(_) => Err(IndexError::SessionIdentityChanged),
        }
    }
}

/// A discovery pass: the sessions it matched, with their reports and
/// capabilities, and its aggregate statistics.
pub struct SessionDiscovery {
    pub sessions: Vec<DiscoveredSession>,
    pub stats: crate::discovery::SessionDiscoveryStats,
}

/// An incremental discovery pass: the sessions it had to read in full, the
/// catalog sources whose evidence was unchanged, and its statistics.
pub struct IncrementalSessionDiscovery {
    pub sessions: Vec<DiscoveredSession>,
    pub unchanged_sources: Vec<crate::discovery_walk::UnchangedSourceObservation>,
    pub stats: crate::discovery::SessionDiscoveryStats,
}

/// The path-free outcome of committing a verified discovery batch.
pub struct VerifiedDiscoveryBatchCommit {
    pub sessions: Vec<crate::catalog::SessionSummary>,
    pub unchanged_sources_marked: usize,
    pub swept_sessions: usize,
    /// Every candidate was covered and every unchanged observation matched.
    pub complete: bool,
}

/// Sessions each of which passed its final evidence and revision checks.
pub struct VerifiedDiscoveredSessionBatch {
    sessions: Vec<DiscoveredSession>,
}

impl VerifiedDiscoveredSessionBatch {
    pub fn new(sessions: Vec<DiscoveredSession>) -> (r: Self)
        ensures
            r.sessions_spec() == sessions@,
    {
        VerifiedDiscoveredSessionBatch { sessions }
    }

    pub closed spec fn sessions_spec(&self) -> Seq<DiscoveredSession> {
        self.sessions@
    }

    pub fn into_sessions(self) -> (r: Vec<DiscoveredSession>)
        ensures
            r@ == self.sessions_spec(),
    {
        self.sessions
    }
}

/// The read limit that binds a scan of a report's bytes: all of them (at
/// least one), below the largest size.
pub fn report_verification_limit(report: &ScanReport) -> (r: Result<usize, IndexError>)
    ensures
        ({
            let n = report.complete_bytes + report.partial_tail_bytes;
            let l = if n >= 1 { n } else { 1 };
            if n > usize::MAX || l >= usize::MAX {
                r == Err::<usize, IndexError>(IndexError::SessionIdentityUnavailable)
            } else {
                r == Ok::<usize, IndexError>(l as usize)
            }
        }),
{
    if report.complete_bytes > usize::MAX - report.partial_tail_bytes {
        return Err(IndexError::SessionIdentityUnavailable);
    }
    let n = report.complete_bytes + report.partial_tail_bytes;
    let l = if n >= 1 { n } else { 1 };
    if l == usize::MAX {
        Err(IndexError::SessionIdentityUnavailable)
    } else {
        Ok(l)
    }
}

/// What a discovered scan must carry to be persisted: an identity, a
/// revision equal to the report's, and a non-zero read limit.
pub fn discovered_scan_binding(file: &HostSessionFile, report: &ScanReport) -> (r: Result<(PlatformFileIdentity, usize), IndexError>)
    ensures
        match (file@.identity, file@.revision, file@.limit) {
            (Some(i), Some(rev), Some(l)) if l != 0 => if rev == report.file_revision@ {
                r == Ok::<(PlatformFileIdentity, usize), IndexError>((i, l))
            } else {
                r == Err::<(PlatformFileIdentity, usize), IndexError>(IndexError::SessionIdentityChanged)
            },
            _ => r == Err::<(PlatformFileIdentity, usize), IndexError>(IndexError::SessionIdentityUnavailable),
        },
{
    let identity = match file.expected_identity() {
        Some(i) => i,
        None => return Err(IndexError::SessionIdentityUnavailable),
    };
    let revision = match file.expected_revision() {
        Some(rev) => rev,
        None => return Err(IndexError::SessionIdentityUnavailable),
    };
    let limit = match file.verification_limit() {
        Some(l) => if l != 0 {
            l
        } else {
            return Err(IndexError::SessionIdentityUnavailable);
        },
        None => return Err(IndexError::SessionIdentityUnavailable),
    };
    if !str_eq(revision, report.file_revision.as_str()) {
        return Err(IndexError::SessionIdentityChanged);
    }
    Ok((identity, limit))
}

/// A bounded rescan of the source must reproduce the report's revision.
pub fn rescan_reproduces(report: &ScanReport, rescan: &Result<ScanReport, BoundedScanError>) -> (r: Result<(), IndexError>)
    ensures
        match rescan {
            Ok(v) => if v.file_revision@ == report.file_revision@ {
                r is Ok
            } else {
                r == Err::<(), IndexError>(IndexError::SessionIdentityChanged)
            },
            Err(_) => r == Err::<(), IndexError>(IndexError::SessionIdentityChanged),
        },
{
    match rescan {
        Ok(v) => if str_eq(v.file_revision.as_str(), report.file_revision.as_str()) {
            Ok(())
        } else {
            Err(IndexError::SessionIdentityChanged)
        },
        Err(_) => Err(IndexError::SessionIdentityChanged),
    }
}

/// Fresh evidence must show the bound identity; it is then what is stored.
pub fn evidence_bound(identity: PlatformFileIdentity, evidence: Result<DiscoveryEvidence, BoundedScanError>) -> (r: Result<crate::catalog_stream::SourceFingerprint, IndexError>)
    ensures
        match evidence {
            Ok(e) => if e.fingerprint.identity == identity {
                r == Ok::<crate::catalog_stream::SourceFingerprint, IndexError>(e.fingerprint)
            } else {
                r == Err::<crate::catalog_stream::SourceFingerprint, IndexError>(IndexError::SessionIdentityChanged)
            },
            Err(_) => r == Err::<crate::catalog_stream::SourceFingerprint, IndexError>(IndexError::SessionIdentityChanged),
        },
{
    match evidence {
        Ok(e) => if e.fingerprint.identity == identity {
            Ok(e.fingerprint)
        } else {
            Err(IndexError::SessionIdentityChanged)
        },
        Err(_) => Err(IndexError::SessionIdentityChanged),
    }
}

} // verus!
