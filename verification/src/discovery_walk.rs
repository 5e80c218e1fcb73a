//! The decisions of a bounded, breadth-first session discovery walk. The
//! host performs every filesystem observation and reports it here; the walk
//! decides what to visit, what to read and what to count, and keeps every
//! bound: directories scheduled, entries examined and files scanned.
use vstd::prelude::*;
use crate::discovery::{SessionDiscoveryLimits, SessionDiscoveryStats, is_session_jsonl, session_file_name};
use crate::catalog_stream::{SourceFingerprint, PlatformFileIdentity, same_fingerprint_spec};
use crate::report::{ScanReport, strings_view};
use crate::text::{str_eq, opt_view};

verus! {

/// What a metadata lookup (without following links) found at a path; an
/// entry or lookup error is `Missing`.
#[derive(Clone, Copy, Debug, PartialEq, Eq, Structural)]
pub enum PathKind {
    Missing,
    Symlink,
    Directory,
    File { len: u64 },
    Other,
}

/// Why reading a candidate's evidence or catalog failed.
#[derive(Clone, Copy, Debug, PartialEq, Eq, Structural)]
pub enum ReadFailure {
    TooLarge,
    Symlink,
    Other,
}

/// How a failed bounded read counts: an oversize source, a link, or an
/// inaccessible entry.
pub fn read_failure(e: crate::host_file::BoundedScanError) -> (r: ReadFailure)
    ensures
        r == (match e {
            crate::host_file::BoundedScanError::FileTooLarge { .. } => ReadFailure::TooLarge,
            crate::host_file::BoundedScanError::Symlink => ReadFailure::Symlink,
            _ => ReadFailure::Other,
        }),
{
    match e {
        crate::host_file::BoundedScanError::FileTooLarge { .. } => ReadFailure::TooLarge,
        crate::host_file::BoundedScanError::Symlink => ReadFailure::Symlink,
        _ => ReadFailure::Other,
    }
}

/// Whether a candidate's header names the requested project.
#[derive(Clone, Copy, Debug, PartialEq, Eq, Structural)]
pub enum CandidateProjectAttribution {
    MatchesRequestedProject,
    OtherProject,
    Unattributable,
}

/// What to do with an examined directory entry.
#[derive(Clone, Copy, Debug, PartialEq, Eq, Structural)]
pub enum EntryAction {
    Skip,
    ReadEvidence,
    Stop,
}

/// A report's attribution: its header working directory must be absolute
/// and resolve (as `canonical_cwd`) to exactly the canonical project.
pub open spec fn attribution_spec(cwd: Option<Seq<char>>, canonical_cwd: Option<Seq<char>>, project: Seq<char>) -> CandidateProjectAttribution {
    match cwd {
        None => CandidateProjectAttribution::Unattributable,
        Some(c) => if !(c.len() > 0 && c[0] == '/') {
            CandidateProjectAttribution::Unattributable
        } else {
            match canonical_cwd {
                None => CandidateProjectAttribution::Unattributable,
                Some(p) => if p == project {
                    CandidateProjectAttribution::MatchesRequestedProject
                } else {
                    CandidateProjectAttribution::OtherProject
                },
            }
        },
    }
}

/// Classifies a report; `canonical_cwd` is what resolving its absolute
/// header working directory gave, if that succeeded.
pub fn classify_report_project(report: &ScanReport, canonical_cwd: Option<&str>, canonical_project: &str) -> (r: CandidateProjectAttribution)
    ensures
        r == attribution_spec(opt_view(report.project_cwd), crate::api::opt_str_view(canonical_cwd), canonical_project@),
{
    let cwd = match &report.project_cwd {
        Some(c) => c,
        None => return CandidateProjectAttribution::Unattributable,
    };
    let chars = crate::text::str_chars(cwd.as_str());
    if !(chars.len() > 0 && chars[0] == '/') {
        return CandidateProjectAttribution::Unattributable;
    }
    match canonical_cwd {
        None => CandidateProjectAttribution::Unattributable,
        Some(p) => if str_eq(p, canonical_project) {
            CandidateProjectAttribution::MatchesRequestedProject
        } else {
            CandidateProjectAttribution::OtherProject
        },
    }
}

/// Whether the report's header names exactly the requested project.
pub fn report_matches_project(report: &ScanReport, canonical_cwd: Option<&str>, canonical_project: &str) -> (r: bool)
    ensures
        r == (attribution_spec(opt_view(report.project_cwd), crate::api::opt_str_view(canonical_cwd), canonical_project@)
            == CandidateProjectAttribution::MatchesRequestedProject),
{
    classify_report_project(report, canonical_cwd, canonical_project) == CandidateProjectAttribution::MatchesRequestedProject
}

/// Stored evidence for a catalog source, handed back to discovery.
pub struct CatalogSourceFingerprint {
    pub session_id: String,
    pub path: String,
    pub fingerprint: SourceFingerprint,
}

/// A source re-observed as unchanged: its session and fresh evidence.
pub struct UnchangedSourceObservation {
    pub session_id: String,
    pub fingerprint: SourceFingerprint,
}

/// The evidence recorded for `path`: the last stored source with it.
pub open spec fn known_by_path(known: Seq<CatalogSourceFingerprint>, path: Seq<char>) -> Option<CatalogSourceFingerprint>
    decreases known.len(),
{
    if known.len() == 0 {
        None
    } else if known.last().path@ == path {
        Some(known.last())
    } else {
        known_by_path(known.drop_last(), path)
    }
}

/// What the walk has gathered.
pub struct WalkView {
    pub stats: SessionDiscoveryStats,
    pub pending: Seq<(Seq<char>, usize)>,
    pub scheduled: usize,
    pub seen: Seq<Seq<char>>,
    pub depth: usize,
    pub done: bool,
    pub unchanged: Seq<(Seq<char>, SourceFingerprint)>,
}

pub open spec fn inc(n: usize) -> usize {
    if n < usize::MAX { (n + 1) as usize } else { n }
}

/// The walk's start: the roots, at depth zero, up to the directory bound.
pub open spec fn begin_spec(roots: Seq<Seq<char>>, limits: SessionDiscoveryLimits) -> WalkView {
    let n = if roots.len() <= limits.max_directories { roots.len() } else { limits.max_directories as nat };
    WalkView {
        stats: SessionDiscoveryStats { directory_limit_reached: roots.len() > limits.max_directories, ..zero_stats() },
        pending: roots.take(n as int).map_values(|r: Seq<char>| (r, 0usize)),
        scheduled: n as usize,
        seen: Seq::empty(),
        depth: 0,
        done: false,
        unchanged: Seq::empty(),
    }
}

pub open spec fn zero_stats() -> SessionDiscoveryStats {
    SessionDiscoveryStats {
        visited_directories: 0,
        examined_entries: 0,
        scanned_files: 0,
        matched_files: 0,
        skipped_symlinks: 0,
        skipped_oversize_files: 0,
        skipped_depth_directories: 0,
        skipped_inaccessible_entries: 0,
        unattributable_candidates: 0,
        skipped_duplicate_candidates: 0,
        full_content_scans: 0,
        unchanged_sources: 0,
        directory_limit_reached: false,
        entry_limit_reached: false,
        file_limit_reached: false,
    }
}

/// The outcome of a failed read in the statistics.
pub open spec fn failure_stats(s: SessionDiscoveryStats, f: ReadFailure) -> SessionDiscoveryStats {
    match f {
        ReadFailure::TooLarge => SessionDiscoveryStats { skipped_oversize_files: inc(s.skipped_oversize_files), ..s },
        ReadFailure::Symlink => SessionDiscoveryStats { skipped_symlinks: inc(s.skipped_symlinks), ..s },
        ReadFailure::Other => SessionDiscoveryStats { skipped_inaccessible_entries: inc(s.skipped_inaccessible_entries), ..s },
    }
}

/// Examining one entry of the current directory, at `depth`.
pub open spec fn examine_spec(w: WalkView, limits: SessionDiscoveryLimits, path: Seq<char>, name: Option<Seq<char>>, kind: PathKind) -> (WalkView, EntryAction) {
    let s = SessionDiscoveryStats { examined_entries: inc(w.stats.examined_entries), ..w.stats };
    match kind {
        PathKind::Missing => (WalkView { stats: SessionDiscoveryStats { skipped_inaccessible_entries: inc(s.skipped_inaccessible_entries), ..s }, ..w }, EntryAction::Skip),
        PathKind::Symlink => (WalkView { stats: SessionDiscoveryStats { skipped_symlinks: inc(s.skipped_symlinks), ..s }, ..w }, EntryAction::Skip),
        PathKind::Directory => if w.depth >= limits.max_depth {
            (WalkView { stats: SessionDiscoveryStats { skipped_depth_directories: inc(s.skipped_depth_directories), ..s }, ..w }, EntryAction::Skip)
        } else if w.scheduled >= limits.max_directories {
            (WalkView { stats: SessionDiscoveryStats { directory_limit_reached: true, ..s }, ..w }, EntryAction::Skip)
        } else {
            (WalkView { stats: s, pending: w.pending.push((path, (w.depth + 1) as usize)), scheduled: (w.scheduled + 1) as usize, ..w }, EntryAction::Skip)
        },
        PathKind::Other => (WalkView { stats: s, ..w }, EntryAction::Skip),
        PathKind::File { len } => {
            let candidate = match name {
                Some(n) => session_file_name(n),
                None => false,
            };
            if !candidate {
                (WalkView { stats: s, ..w }, EntryAction::Skip)
            } else if w.seen.contains(path) {
                (WalkView { stats: SessionDiscoveryStats { skipped_duplicate_candidates: inc(s.skipped_duplicate_candidates), ..s }, ..w }, EntryAction::Skip)
            } else if s.scanned_files >= limits.max_files {
                (WalkView { stats: SessionDiscoveryStats { file_limit_reached: true, ..s }, seen: w.seen.push(path), done: true, ..w }, EntryAction::Stop)
            } else {
                let s2 = SessionDiscoveryStats { scanned_files: inc(s.scanned_files), ..s };
                if len > limits.max_file_bytes {
                    (WalkView { stats: SessionDiscoveryStats { skipped_oversize_files: inc(s2.skipped_oversize_files), ..s2 }, seen: w.seen.push(path), ..w }, EntryAction::Skip)
                } else {
                    (WalkView { stats: s2, seen: w.seen.push(path), ..w }, EntryAction::ReadEvidence)
                }
            }
        },
    }
}

/// The state of a discovery walk over explicit session roots.
pub struct DiscoveryWalk {
    limits: SessionDiscoveryLimits,
    stats: SessionDiscoveryStats,
    pending: Vec<(String, usize)>,
    head: usize,
    scheduled: usize,
    seen: Vec<String>,
    depth: usize,
    done: bool,
    unchanged: Vec<UnchangedSourceObservation>,
}

pub open spec fn frames_of(v: Seq<(String, usize)>) -> Seq<(Seq<char>, usize)> {
    v.map_values(|p: (String, usize)| (p.0@, p.1))
}

pub open spec fn unchanged_view(v: Seq<UnchangedSourceObservation>) -> Seq<(Seq<char>, SourceFingerprint)> {
    v.map_values(|u: UnchangedSourceObservation| (u.session_id@, u.fingerprint))
}

impl DiscoveryWalk {
    pub closed spec fn view(&self) -> WalkView {
        WalkView {
            stats: self.stats,
            pending: frames_of(self.pending@).skip(self.head as int),
            scheduled: self.scheduled,
            seen: strings_view(self.seen@),
            depth: self.depth,
            done: self.done,
            unchanged: unchanged_view(self.unchanged@),
        }
    }

    pub closed spec fn limits(&self) -> SessionDiscoveryLimits {
        self.limits
    }

    /// What every step keeps: the queue's consumed part is within it, no more
    /// directories are scheduled than the bound allows, and every pending
    /// directory lies within the depth bound.
    pub closed spec fn wf(&self) -> bool {
        &&& self.head <= self.pending@.len()
        &&& self.pending@.len() == self.scheduled
        &&& self.scheduled <= self.limits.max_directories
        &&& forall|i: int| 0 <= i < self.pending@.len() ==> (#[trigger] self.pending@[i]).1 <= self.limits.max_depth
        &&& self.depth <= self.limits.max_depth
    }

    pub fn begin(roots: &[String], limits: SessionDiscoveryLimits) -> (r: Self)
        ensures
            r.wf(),
            r.limits() == limits,
            r.view() == begin_spec(strings_view(roots@), limits),
    {
        let mut pending: Vec<(String, usize)> = Vec::new();
        let mut i: usize = 0;
        let ghost rv = strings_view(roots@);
        while i < roots.len() && i < limits.max_directories
            invariant
                rv == strings_view(roots@),
                i <= roots@.len(),
                i <= limits.max_directories,
                pending@.len() == i,
                forall|k: int| 0 <= k < i ==> (#[trigger] pending@[k]).1 == 0,
                frames_of(pending@) == rv.take(i as int).map_values(|r: Seq<char>| (r, 0usize)),
            decreases roots.len() - i,
        {
            let ghost before = frames_of(pending@);
            pending.push((roots[i].clone(), 0));
            assert(frames_of(pending@) =~= before.push((rv[i as int], 0usize)));
            assert(rv.take(i + 1).map_values(|r: Seq<char>| (r, 0usize)) =~= rv.take(i as int).map_values(|r: Seq<char>| (r, 0usize)).push((rv[i as int], 0usize)));
            i = i + 1;
        }
        let directory_limit_reached = i < roots.len();
        let stats = SessionDiscoveryStats { directory_limit_reached, ..SessionDiscoveryStats::default() };
        let n = pending.len();
        let r = DiscoveryWalk {
            limits,
            stats,
            pending,
            head: 0,
            scheduled: n,
            seen: Vec::new(),
            depth: 0,
            done: false,
            unchanged: Vec::new(),
        };
        proof {
            assert(frames_of(r.pending@).skip(0) =~= frames_of(r.pending@));
            assert(strings_view(r.seen@) =~= Seq::<Seq<char>>::empty());
            assert(unchanged_view(r.unchanged@) =~= Seq::<(Seq<char>, SourceFingerprint)>::empty());
            assert(directory_limit_reached == (rv.len() > limits.max_directories));
        }
        r
    }

    /// The next directory to visit, with its depth; none once the walk has
    /// stopped or the queue is empty.
    pub fn next_directory(&mut self) -> (r: Option<(String, usize)>)
        requires
            old(self).wf(),
        ensures
            final(self).wf(),
            final(self).limits() == old(self).limits(),
            old(self).view().done || old(self).view().pending.len() == 0 ==> r is None && final(self).view() == old(self).view(),
            !old(self).view().done && old(self).view().pending.len() > 0 ==> match r {
                Some((path, depth)) => {
                    &&& (path@, depth) == old(self).view().pending[0]
                    &&& final(self).view() == (WalkView { pending: old(self).view().pending.drop_first(), depth, ..old(self).view() })
                },
                None => false,
            },
    {
        if self.done || self.head >= self.pending.len() {
            return None;
        }
        let (path, depth) = (self.pending[self.head].0.clone(), self.pending[self.head].1);
        self.head = self.head + 1;
        self.depth = depth;
        assert(frames_of(self.pending@).skip(self.head as int) =~= frames_of(self.pending@).skip(self.head - 1).drop_first());
        Some((path, depth))
    }

    /// Reports what the popped directory is; only a real directory is read
    /// (and counted as visited).
    pub fn check_directory(&mut self, kind: PathKind) -> (r: bool)
        requires
            old(self).wf(),
        ensures
            final(self).wf(),
            final(self).limits() == old(self).limits(),
            r == (kind == PathKind::Directory),
            final(self).view() == (WalkView {
                stats: match kind {
                    PathKind::Directory => SessionDiscoveryStats { visited_directories: inc(old(self).view().stats.visited_directories), ..old(self).view().stats },
                    PathKind::Symlink => SessionDiscoveryStats { skipped_symlinks: inc(old(self).view().stats.skipped_symlinks), ..old(self).view().stats },
                    _ => SessionDiscoveryStats { skipped_inaccessible_entries: inc(old(self).view().stats.skipped_inaccessible_entries), ..old(self).view().stats },
                },
                ..old(self).view()
            }),
    {
        match kind {
            PathKind::Directory => {
                if self.stats.visited_directories < usize::MAX {
                    self.stats.visited_directories = self.stats.visited_directories + 1;
                }
                true
            },
            PathKind::Symlink => {
                if self.stats.skipped_symlinks < usize::MAX {
                    self.stats.skipped_symlinks = self.stats.skipped_symlinks + 1;
                }
                false
            },
            _ => {
                if self.stats.skipped_inaccessible_entries < usize::MAX {
                    self.stats.skipped_inaccessible_entries = self.stats.skipped_inaccessible_entries + 1;
                }
                false
            },
        }
    }

    /// A directory whose entries cannot be listed.
    pub fn directory_unreadable(&mut self)
        requires
            old(self).wf(),
        ensures
            final(self).wf(),
            final(self).limits() == old(self).limits(),
            final(self).view() == (WalkView {
                stats: SessionDiscoveryStats { skipped_inaccessible_entries: inc(old(self).view().stats.skipped_inaccessible_entries), ..old(self).view().stats },
                ..old(self).view()
            }),
    {
        if self.stats.skipped_inaccessible_entries < usize::MAX {
            self.stats.skipped_inaccessible_entries = self.stats.skipped_inaccessible_entries + 1;
        }
    }

    /// Whether another entry may be examined; at the entry bound the walk
    /// stops.
    pub fn entry_budget(&mut self) -> (r: bool)
        requires
            old(self).wf(),
        ensures
            final(self).wf(),
            final(self).limits() == old(self).limits(),
            r == (old(self).view().stats.examined_entries < old(self).limits().max_entries),
            r ==> final(self).view() == old(self).view(),
            !r ==> final(self).view() == (WalkView {
                stats: SessionDiscoveryStats { entry_limit_reached: true, ..old(self).view().stats },
                done: true,
                ..old(self).view()
            }),
    {
        if self.stats.examined_entries >= self.limits.max_entries {
            self.stats.entry_limit_reached = true;
            self.done = true;
            return false;
        }
        true
    }

    /// Examines one entry of the current directory: `path` is its full path,
    /// `file_name` its name when that is valid text, and `kind` what a
    /// no-follow lookup found (or `Missing` when the entry could not be read).
    pub fn examine_entry(&mut self, path: &str, file_name: Option<&str>, kind: PathKind) -> (r: EntryAction)
        requires
            old(self).wf(),
        ensures
            final(self).wf(),
            final(self).limits() == old(self).limits(),
            (final(self).view(), r) == examine_spec(old(self).view(), old(self).limits(), path@, crate::api::opt_str_view(file_name), kind),
    {
        let ghost w = self.view();
        if self.stats.examined_entries < usize::MAX {
            self.stats.examined_entries = self.stats.examined_entries + 1;
        }
        match kind {
            PathKind::Missing => {
                if self.stats.skipped_inaccessible_entries < usize::MAX {
                    self.stats.skipped_inaccessible_entries = self.stats.skipped_inaccessible_entries + 1;
                }
                EntryAction::Skip
            },
            PathKind::Symlink => {
                if self.stats.skipped_symlinks < usize::MAX {
                    self.stats.skipped_symlinks = self.stats.skipped_symlinks + 1;
                }
                EntryAction::Skip
            },
            PathKind::Directory => {
                if self.depth >= self.limits.max_depth {
                    if self.stats.skipped_depth_directories < usize::MAX {
                        self.stats.skipped_depth_directories = self.stats.skipped_depth_directories + 1;
                    }
                } else if self.scheduled >= self.limits.max_directories {
                    self.stats.directory_limit_reached = true;
                } else {
                    let ghost before = self.pending@;
                    self.pending.push((path.to_owned(), self.depth + 1));
                    self.scheduled = self.scheduled + 1;
                    assert(frames_of(self.pending@).skip(self.head as int) =~= frames_of(before).skip(self.head as int).push((path@, (self.depth + 1) as usize)));
                }
                EntryAction::Skip
            },
            PathKind::Other => EntryAction::Skip,
            PathKind::File { len } => {
                let candidate = match file_name {
                    Some(n) => is_session_jsonl(n),
                    None => false,
                };
                if !candidate {
                    return EntryAction::Skip;
                }
                if crate::extensions::contains_string(&self.seen, path) {
                    if self.stats.skipped_duplicate_candidates < usize::MAX {
                        self.stats.skipped_duplicate_candidates = self.stats.skipped_duplicate_candidates + 1;
                    }
                    return EntryAction::Skip;
                }
                let ghost seen_before = self.seen@;
                self.seen.push(path.to_owned());
                assert(strings_view(self.seen@) =~= strings_view(seen_before).push(path@));
                if self.stats.scanned_files >= self.limits.max_files {
                    self.stats.file_limit_reached = true;
                    self.done = true;
                    return EntryAction::Stop;
                }
                if self.stats.scanned_files < usize::MAX {
                    self.stats.scanned_files = self.stats.scanned_files + 1;
                }
                if len > self.limits.max_file_bytes as u64 {
                    if self.stats.skipped_oversize_files < usize::MAX {
                        self.stats.skipped_oversize_files = self.stats.skipped_oversize_files + 1;
                    }
                    return EntryAction::Skip;
                }
                EntryAction::ReadEvidence
            },
        }
    }

    /// Reading a candidate (its evidence or its catalog) failed.
    pub fn read_failed(&mut self, failure: ReadFailure)
        requires
            old(self).wf(),
        ensures
            final(self).wf(),
            final(self).limits() == old(self).limits(),
            final(self).view() == (WalkView { stats: failure_stats(old(self).view().stats, failure), ..old(self).view() }),
    {
        match failure {
            ReadFailure::TooLarge => {
                if self.stats.skipped_oversize_files < usize::MAX {
                    self.stats.skipped_oversize_files = self.stats.skipped_oversize_files + 1;
                }
            },
            ReadFailure::Symlink => {
                if self.stats.skipped_symlinks < usize::MAX {
                    self.stats.skipped_symlinks = self.stats.skipped_symlinks + 1;
                }
            },
            ReadFailure::Other => {
                if self.stats.skipped_inaccessible_entries < usize::MAX {
                    self.stats.skipped_inaccessible_entries = self.stats.skipped_inaccessible_entries + 1;
                }
            },
        }
    }

    /// A candidate's bounded header and evidence were read. A header naming
    /// another project ends the candidate; one naming this project whose
    /// stored evidence is unchanged is recorded as unchanged; anything else
    /// needs a full catalog read (the result is `true`).
    pub fn evidence_read(
        &mut self,
        path: &str,
        header: CandidateProjectAttribution,
        fingerprint: SourceFingerprint,
        known: &[CatalogSourceFingerprint],
    ) -> (r: bool)
        requires
            old(self).wf(),
        ensures
            final(self).wf(),
            final(self).limits() == old(self).limits(),
            header == CandidateProjectAttribution::OtherProject ==> !r && final(self).view() == old(self).view(),
            header != CandidateProjectAttribution::OtherProject ==> match known_by_path(known@, path@) {
                Some(k) if header == CandidateProjectAttribution::MatchesRequestedProject && same_fingerprint_spec(k.fingerprint, fingerprint) => {
                    &&& !r
                    &&& final(self).view() == (WalkView {
                        stats: SessionDiscoveryStats {
                            matched_files: inc(old(self).view().stats.matched_files),
                            unchanged_sources: inc(old(self).view().stats.unchanged_sources),
                            ..old(self).view().stats
                        },
                        unchanged: old(self).view().unchanged.push((k.session_id@, fingerprint)),
                        ..old(self).view()
                    })
                },
                _ => r && final(self).view() == old(self).view(),
            },
    {
        if header == CandidateProjectAttribution::OtherProject {
            return false;
        }
        if header == CandidateProjectAttribution::MatchesRequestedProject {
            match last_known(known, path) {
                Some(k) => {
                    if known[k].fingerprint.matches(&fingerprint) {
                        if self.stats.matched_files < usize::MAX {
                            self.stats.matched_files = self.stats.matched_files + 1;
                        }
                        if self.stats.unchanged_sources < usize::MAX {
                            self.stats.unchanged_sources = self.stats.unchanged_sources + 1;
                        }
                        let ghost before = self.unchanged@;
                        self.unchanged.push(UnchangedSourceObservation { session_id: known[k].session_id.clone(), fingerprint });
                        assert(unchanged_view(self.unchanged@) =~= unchanged_view(before).push((known@[k as int].session_id@, fingerprint)));
                        return false;
                    }
                },
                None => {},
            }
        }
        true
    }

    /// A candidate's full catalog was read and classified. Only a candidate
    /// of this project is kept (`true`); one without a usable working
    /// directory is counted, since it may hide a session.
    pub fn catalog_read(&mut self, attribution: CandidateProjectAttribution) -> (r: bool)
        requires
            old(self).wf(),
        ensures
            final(self).wf(),
            final(self).limits() == old(self).limits(),
            r == (attribution == CandidateProjectAttribution::MatchesRequestedProject),
            final(self).view() == (WalkView {
                stats: {
                    let s = SessionDiscoveryStats { full_content_scans: inc(old(self).view().stats.full_content_scans), ..old(self).view().stats };
                    match attribution {
                        CandidateProjectAttribution::MatchesRequestedProject => SessionDiscoveryStats { matched_files: inc(s.matched_files), ..s },
                        CandidateProjectAttribution::OtherProject => s,
                        CandidateProjectAttribution::Unattributable => SessionDiscoveryStats { unattributable_candidates: inc(s.unattributable_candidates), ..s },
                    }
                },
                ..old(self).view()
            }),
    {
        if self.stats.full_content_scans < usize::MAX {
            self.stats.full_content_scans = self.stats.full_content_scans + 1;
        }
        match attribution {
            CandidateProjectAttribution::MatchesRequestedProject => {
                if self.stats.matched_files < usize::MAX {
                    self.stats.matched_files = self.stats.matched_files + 1;
                }
                true
            },
            CandidateProjectAttribution::OtherProject => false,
            CandidateProjectAttribution::Unattributable => {
                if self.stats.unattributable_candidates < usize::MAX {
                    self.stats.unattributable_candidates = self.stats.unattributable_candidates + 1;
                }
                false
            },
        }
    }

    /// The aggregate outcome and the sources observed unchanged.
    pub fn finish(self) -> (r: (SessionDiscoveryStats, Vec<UnchangedSourceObservation>))
        ensures
            r.0 == self.view().stats,
            unchanged_view(r.1@) == self.view().unchanged,
    {
        (self.stats, self.unchanged)
    }
}

/// The walk's bounds hold of a state: no more directories scheduled than
/// allowed, and no pending directory deeper than allowed.
pub open spec fn walk_bounded(v: WalkView, limits: SessionDiscoveryLimits) -> bool {
    &&& v.scheduled <= limits.max_directories
    &&& v.depth <= limits.max_depth
    &&& forall|i: int| 0 <= i < v.pending.len() ==> (#[trigger] v.pending[i]).1 <= limits.max_depth
}

/// Every state of a walk, from `begin` through every step, keeps its bounds.
pub proof fn lemma_walk_bounded(w: &DiscoveryWalk)
    requires
        w.wf(),
    ensures
        walk_bounded(w.view(), w.limits()),
{
    let v = w.view();
    assert forall|i: int| 0 <= i < v.pending.len() implies (#[trigger] v.pending[i]).1 <= w.limits().max_depth by {
        assert(v.pending[i] == frames_of(w.pending@)[i + w.head]);
    }
}

fn last_known(known: &[CatalogSourceFingerprint], path: &str) -> (r: Option<usize>)
    ensures
        match r {
            Some(k) => k < known@.len() && known_by_path(known@, path@) == Some(known@[k as int]),
            None => known_by_path(known@, path@) is None,
        },
{
    let mut i = known.len();
    assert(known@.take(i as int) =~= known@);
    while i > 0
        invariant
            i <= known@.len(),
            known_by_path(known@, path@) == known_by_path(known@.take(i as int), path@),
        decreases i,
    {
        assert(known@.take(i as int).drop_last() =~= known@.take(i - 1));
        assert(known@.take(i as int).last() == known@[i - 1]);
        if str_eq(known[i - 1].path.as_str(), path) {
            return Some(i - 1);
        }
        i = i - 1;
    }
    None
}

} // verus!
