//! Decisions of the session-root watcher. Filesystem events are lossy
//! scheduling hints: a burst of them becomes one opaque hint carrying only a
//! sequence number and a kind, never a path.
use vstd::prelude::*;
use crate::discovery_walk::PathKind;
use crate::report::strings_view;

verus! {

/// Version of the hint protocol.
pub const WATCHER_PROTOCOL: u8 = 7;

/// The only watcher data that leaves the host.
#[derive(Clone, Copy, Debug, PartialEq, Eq)]
pub struct SessionRootHint {
    pub protocol: u8,
    pub sequence: u64,
    pub kind: &'static str,
}

/// A root is watched only when it is a real directory, not a link.
pub fn watchable_root(kind: PathKind) -> (r: bool)
    ensures
        r == (kind == PathKind::Directory),
{
    kind == PathKind::Directory
}

/// The hint sent when no watcher could be created.
pub fn unavailable_hint() -> (r: SessionRootHint)
    ensures
        r.protocol == WATCHER_PROTOCOL,
        r.sequence == 1,
        r.kind@ == "unavailable"@,
{
    SessionRootHint { protocol: WATCHER_PROTOCOL, sequence: 1, kind: "unavailable" }
}

/// The sequence after `n`: one more, wrapping past the largest to one, so
/// it is never zero.
pub open spec fn next_sequence(n: u64) -> u64 {
    if n == u64::MAX { 1 } else { (n + 1) as u64 }
}

/// `s` without any occurrence of `x`, the rest in order.
pub open spec fn without(s: Seq<Seq<char>>, x: Seq<char>) -> Seq<Seq<char>>
    decreases s.len(),
{
    if s.len() == 0 {
        s
    } else if s.last() == x {
        without(s.drop_last(), x)
    } else {
        without(s.drop_last(), x).push(s.last())
    }
}

/// The watched roots and the last hint's sequence.
pub struct WatchState {
    watched: Vec<String>,
    sequence: u64,
}

impl WatchState {
    pub closed spec fn watched_spec(&self) -> Seq<Seq<char>> {
        strings_view(self.watched@)
    }

    pub closed spec fn sequence_spec(&self) -> u64 {
        self.sequence
    }

    pub fn new() -> (r: Self)
        ensures
            r.watched_spec() == Seq::<Seq<char>>::empty(),
            r.sequence_spec() == 0,
    {
        let r = WatchState { watched: Vec::new(), sequence: 0 };
        assert(strings_view(r.watched@) =~= Seq::<Seq<char>>::empty());
        r
    }

    /// Whether to register `root`: a watchable root not watched yet, which
    /// is then recorded as watched.
    pub fn admit_root(&mut self, root: &str, kind: PathKind) -> (r: bool)
        ensures
            r == (kind == PathKind::Directory && !old(self).watched_spec().contains(root@)),
            r ==> final(self).watched_spec() == old(self).watched_spec().push(root@),
            !r ==> final(self).watched_spec() == old(self).watched_spec(),
            final(self).sequence_spec() == old(self).sequence_spec(),
    {
        if !watchable_root(kind) || crate::extensions::contains_string(&self.watched, root) {
            return false;
        }
        let ghost before = strings_view(self.watched@);
        self.watched.push(root.to_owned());
        assert(strings_view(self.watched@) =~= before.push(root@));
        true
    }

    /// Registering `root` failed: it is forgotten, so a later attempt
    /// retries.
    pub fn registration_failed(&mut self, root: &str)
        ensures
            final(self).watched_spec() == without(old(self).watched_spec(), root@),
            final(self).sequence_spec() == old(self).sequence_spec(),
    {
        let mut kept: Vec<String> = Vec::new();
        let ghost all = strings_view(self.watched@);
        let mut i: usize = 0;
        while i < self.watched.len()
            invariant
                i <= self.watched@.len(),
                all == strings_view(self.watched@),
                strings_view(kept@) == without(all.take(i as int), root@),
            decreases self.watched.len() - i,
        {
            let ghost prev = strings_view(kept@);
            assert(all.take(i + 1).drop_last() =~= all.take(i as int));
            assert(all.take(i + 1).last() == self.watched@[i as int]@);
            if !crate::text::str_eq(self.watched[i].as_str(), root) {
                kept.push(self.watched[i].clone());
                assert(strings_view(kept@) =~= prev.push(self.watched@[i as int]@));
            }
            i = i + 1;
        }
        assert(all.take(all.len() as int) =~= all);
        self.watched = kept;
    }

    /// A burst of events has settled; `overflow` if any of them reported a
    /// lost event. The hint to send, with the next sequence.
    pub fn hint(&mut self, overflow: bool) -> (r: SessionRootHint)
        ensures
            r.protocol == WATCHER_PROTOCOL,
            r.sequence == next_sequence(old(self).sequence_spec()),
            r.sequence >= 1,
            r.kind@ == (if overflow { "overflow"@ } else { "changed"@ }),
            final(self).sequence_spec() == r.sequence,
            final(self).watched_spec() == old(self).watched_spec(),
    {
        self.sequence = if self.sequence == u64::MAX { 1 } else { self.sequence + 1 };
        SessionRootHint {
            protocol: WATCHER_PROTOCOL,
            sequence: self.sequence,
            kind: if overflow { "overflow" } else { "changed" },
        }
    }
}

} // verus!
