//! Streaming construction of a discovery catalog: a candidate's bytes are
//! framed at LF as they arrive, each complete frame folds into the sidebar
//! catalog, and bounded prefix and tail evidence plus the content digest are
//! kept, so no complete file is ever held.
use vstd::prelude::*;
use crate::scan::{sha256, sha256_hex_of, is_lower_hex_char};
use crate::discovery::{
    CatalogAccumulator, CatalogState, cat_diag, cat_frame, catalog_report, empty_catalog_state,
    CATALOG_FRAME_MAX_BYTES,
};
use crate::report::ScanReport;
use crate::scanner::diag_view;
use crate::contributions::{parse_u64, parse_u64_spec};
use crate::text::{decimal, push_decimal, push_str, split_on, split_str, str_eq};
use vstd::utf8::encode_utf8;

verus! {

/// Bytes of a candidate's start kept as header evidence.
pub const DISCOVERY_HEADER_PREFIX_BYTES: usize = 65536;
/// Bytes of a candidate's end kept as continuity evidence.
pub const DISCOVERY_TAIL_EVIDENCE_BYTES: usize = 65536;
/// Version of the evidence format; a change invalidates stored evidence.
pub const DISCOVERY_FINGERPRINT_PARSER_VERSION: i64 = 1;

/// A streaming SHA-256 state (`sha2::Sha256`), reachable only through the
/// three functions below.
#[verifier::external_body]
pub struct RevisionHasher {
    inner: sha2::Sha256,
}

/// The bytes a streaming hasher has absorbed so far.
pub uninterp spec fn hasher_absorbed(h: RevisionHasher) -> Seq<u8>;

/// `Sha256::new`: nothing absorbed yet.
#[verifier::external_body]
pub(crate) fn hasher_new() -> (h: RevisionHasher)
    ensures
        hasher_absorbed(h) == Seq::<u8>::empty(),
{
    RevisionHasher { inner: <sha2::Sha256 as sha2::Digest>::new() }
}

/// `Digest::update`: absorbs `bytes` after what came before.
#[verifier::external_body]
pub(crate) fn hasher_update(h: &mut RevisionHasher, bytes: &[u8])
    ensures
        hasher_absorbed(*final(h)) == hasher_absorbed(*old(h)) + bytes@,
{
    <sha2::Sha256 as sha2::Digest>::update(&mut h.inner, bytes);
}

/// `Digest::finalize` formatted with `{:x}`: the digest of everything
/// absorbed, the same as hashing those bytes at once, in 64 lower-case
/// hexadecimal digits.
#[verifier::external_body]
pub(crate) fn hasher_finish(h: RevisionHasher) -> (r: String)
    ensures
        r@ == sha256_hex_of(hasher_absorbed(h)),
        r@.len() == 64,
        forall|i: int| 0 <= i < 64 ==> is_lower_hex_char(#[trigger] r@[i]),
{
    format!("{:x}", <sha2::Sha256 as sha2::Digest>::finalize(h.inner))
}

/// What a catalog stream holds after some bytes.
pub struct StreamView {
    pub catalog: CatalogState,
    pub frame: Seq<u8>,
    pub too_large: bool,
    pub line: u64,
    pub total: usize,
    pub tail_bytes: usize,
    pub prefix: Seq<u8>,
    pub tail: Seq<u8>,
    pub absorbed: Seq<u8>,
}

pub open spec fn empty_stream() -> StreamView {
    StreamView {
        catalog: empty_catalog_state(),
        frame: Seq::empty(),
        too_large: false,
        line: 1,
        total: 0,
        tail_bytes: 0,
        prefix: Seq::empty(),
        tail: Seq::empty(),
        absorbed: Seq::empty(),
    }
}

/// One byte. The prefix keeps the first bytes and the tail the last ones,
/// each up to its bound. An LF completes a frame, which is folded into the
/// catalog (or reported as oversized); other bytes extend the frame until
/// it exceeds the frame bound, after which the rest of its line is skipped.
pub open spec fn stream_step(s: StreamView, b: u8) -> StreamView {
    let prefix = if s.prefix.len() < DISCOVERY_HEADER_PREFIX_BYTES { s.prefix.push(b) } else { s.prefix };
    let tail = if s.tail.len() < DISCOVERY_TAIL_EVIDENCE_BYTES { s.tail.push(b) } else { s.tail.push(b).drop_first() };
    let total = if s.total < usize::MAX { (s.total + 1) as usize } else { s.total };
    let absorbed = s.absorbed.push(b);
    if b == 0x0a {
        let catalog = if s.too_large {
            cat_diag(s.catalog, diag_view("frame-too-large"@, s.line, "ignored"@))
        } else {
            cat_frame(s.catalog, s.line, s.frame)
        };
        let line = if s.line < u64::MAX { (s.line + 1) as u64 } else { s.line };
        StreamView { catalog, frame: Seq::empty(), too_large: false, line, total, tail_bytes: 0, prefix, tail, absorbed }
    } else {
        let tail_bytes = if s.tail_bytes < usize::MAX { (s.tail_bytes + 1) as usize } else { s.tail_bytes };
        if s.too_large {
            StreamView { tail_bytes, prefix, tail, total, absorbed, ..s }
        } else if s.frame.len() < CATALOG_FRAME_MAX_BYTES {
            StreamView { frame: s.frame.push(b), tail_bytes, prefix, tail, total, absorbed, ..s }
        } else {
            StreamView { frame: Seq::empty(), too_large: true, tail_bytes, prefix, tail, total, absorbed, ..s }
        }
    }
}

/// The stream after `bytes`, in order.
pub open spec fn stream_feed(s: StreamView, bytes: Seq<u8>) -> StreamView
    decreases bytes.len(),
{
    if bytes.len() == 0 {
        s
    } else {
        stream_step(stream_feed(s, bytes.drop_last()), bytes.last())
    }
}

/// Feeding bytes in two pieces is feeding them at once.
pub proof fn lemma_stream_feed_chunks(s: StreamView, a: Seq<u8>, b: Seq<u8>)
    ensures
        stream_feed(stream_feed(s, a), b) == stream_feed(s, a + b),
    decreases b.len(),
{
    if b.len() == 0 {
        assert(a + b =~= a);
    } else {
        lemma_stream_feed_chunks(s, a, b.drop_last());
        assert((a + b).drop_last() =~= a + b.drop_last());
        assert((a + b).last() == b.last());
    }
}

/// The catalog under construction for one candidate.
pub struct CatalogStream {
    hasher: RevisionHasher,
    prefix: Vec<u8>,
    ring: Vec<u8>,
    ring_pos: usize,
    frame: Vec<u8>,
    frame_too_large: bool,
    catalog: CatalogAccumulator,
    total: usize,
    tail_bytes: usize,
    line: u64,
}

/// The bytes of a full ring, oldest first.
pub open spec fn ring_view(ring: Seq<u8>, pos: usize) -> Seq<u8> {
    ring.skip(pos as int) + ring.take(pos as int)
}

impl CatalogStream {
    pub closed spec fn wf(&self) -> bool {
        &&& self.ring@.len() <= DISCOVERY_TAIL_EVIDENCE_BYTES
        &&& self.ring@.len() < DISCOVERY_TAIL_EVIDENCE_BYTES ==> self.ring_pos == 0
        &&& self.ring_pos < DISCOVERY_TAIL_EVIDENCE_BYTES
        &&& self.frame@.len() <= CATALOG_FRAME_MAX_BYTES
        &&& self.prefix@.len() <= DISCOVERY_HEADER_PREFIX_BYTES
    }

    pub closed spec fn view(&self) -> StreamView {
        StreamView {
            catalog: self.catalog.state(),
            frame: self.frame@,
            too_large: self.frame_too_large,
            line: self.line,
            total: self.total,
            tail_bytes: self.tail_bytes,
            prefix: self.prefix@,
            tail: ring_view(self.ring@, self.ring_pos),
            absorbed: hasher_absorbed(self.hasher),
        }
    }

    pub fn new() -> (r: Self)
        ensures
            r.wf(),
            r.view() == empty_stream(),
    {
        let r = CatalogStream {
            hasher: hasher_new(),
            prefix: Vec::new(),
            ring: Vec::new(),
            ring_pos: 0,
            frame: Vec::new(),
            frame_too_large: false,
            catalog: CatalogAccumulator::new(),
            total: 0,
            tail_bytes: 0,
            line: 1,
        };
        assert(ring_view(r.ring@, 0) =~= Seq::<u8>::empty());
        r
    }

    /// Bytes received so far, saturating.
    pub fn total(&self) -> (r: usize)
        ensures
            r == self.view().total,
    {
        self.total
    }

    fn step(&mut self, b: u8)
        requires
            old(self).wf(),
        ensures
            final(self).wf(),
            final(self).view() == (StreamView { absorbed: old(self).view().absorbed, ..stream_step(old(self).view(), b) }),
            hasher_absorbed(final(self).hasher) == hasher_absorbed(old(self).hasher),
    {
        let ghost before = self.view();
        if self.prefix.len() < DISCOVERY_HEADER_PREFIX_BYTES {
            self.prefix.push(b);
        }
        let ghost t0 = ring_view(self.ring@, self.ring_pos);
        if self.ring.len() < DISCOVERY_TAIL_EVIDENCE_BYTES {
            assert(self.ring@.skip(0) =~= self.ring@ && self.ring@.take(0) =~= Seq::<u8>::empty());
            self.ring.push(b);
            assert(ring_view(self.ring@, 0) =~= t0.push(b));
        } else {
            let pos = self.ring_pos;
            let ghost old_ring = self.ring@;
            self.ring.set(pos, b);
            if pos + 1 == DISCOVERY_TAIL_EVIDENCE_BYTES {
                self.ring_pos = 0;
                assert(ring_view(self.ring@, 0) =~= t0.push(b).drop_first());
            } else {
                self.ring_pos = pos + 1;
                assert(ring_view(self.ring@, self.ring_pos) =~= t0.push(b).drop_first());
            }
        }
        if self.total < usize::MAX {
            self.total = self.total + 1;
        }
        if b == 0x0a {
            if self.frame_too_large {
                self.catalog.oversized_frame(self.line);
            } else {
                self.catalog.frame(self.line, self.frame.as_slice());
            }
            self.frame.clear();
            self.frame_too_large = false;
            self.tail_bytes = 0;
            if self.line < u64::MAX {
                self.line = self.line + 1;
            }
        } else {
            if self.tail_bytes < usize::MAX {
                self.tail_bytes = self.tail_bytes + 1;
            }
            if !self.frame_too_large {
                if self.frame.len() < CATALOG_FRAME_MAX_BYTES {
                    self.frame.push(b);
                } else {
                    self.frame.clear();
                    self.frame_too_large = true;
                }
            }
        }
    }

    /// Absorbs the next bytes of the candidate.
    pub fn feed(&mut self, bytes: &[u8])
        requires
            old(self).wf(),
        ensures
            final(self).wf(),
            final(self).view() == stream_feed(old(self).view(), bytes@),
    {
        let ghost start = self.view();
        hasher_update(&mut self.hasher, bytes);
        let mut i: usize = 0;
        assert(bytes@.take(0) =~= Seq::<u8>::empty());
        while i < bytes.len()
            invariant
                self.wf(),
                i <= bytes@.len(),
                hasher_absorbed(self.hasher) == start.absorbed + bytes@,
                (StreamView { absorbed: start.absorbed + bytes@.take(i as int), ..self.view() }) == stream_feed(start, bytes@.take(i as int)),
            decreases bytes.len() - i,
        {
            let ghost prev = StreamView { absorbed: start.absorbed + bytes@.take(i as int), ..self.view() };
            self.step(bytes[i]);
            proof {
                assert(bytes@.take(i + 1).drop_last() =~= bytes@.take(i as int));
                assert(bytes@.take(i + 1).last() == bytes@[i as int]);
                assert(start.absorbed + bytes@.take(i + 1) =~= (start.absorbed + bytes@.take(i as int)).push(bytes@[i as int]));
            }
            i = i + 1;
        }
        assert(bytes@.take(bytes@.len() as int) =~= bytes@);
    }

    /// The sidebar report and evidence of everything received: the digest
    /// of all bytes is the file revision, and an unterminated last line
    /// counts as partial.
    pub fn finish(self, source_name: &str) -> (r: CatalogEvidence)
        requires
            self.wf(),
        ensures
            r.report@ == catalog_report(
                self.view().catalog,
                source_name@,
                sha256_hex_of(self.view().absorbed),
                (if self.view().total >= self.view().tail_bytes { self.view().total - self.view().tail_bytes } else { 0int }) as usize,
                self.view().tail_bytes,
            ),
            r.prefix@ == self.view().prefix,
            r.tail@ == self.view().tail,
            r.total == self.view().total,
    {
        let ghost v = self.view();
        let complete = if self.total >= self.tail_bytes { self.total - self.tail_bytes } else { 0 };
        let mut tail: Vec<u8> = Vec::new();
        let mut k = self.ring_pos;
        while k < self.ring.len()
            invariant
                self.ring_pos <= k <= self.ring@.len(),
                tail@ == self.ring@.subrange(self.ring_pos as int, k as int),
            decreases self.ring.len() - k,
        {
            tail.push(self.ring[k]);
            assert(self.ring@.subrange(self.ring_pos as int, k + 1) =~= self.ring@.subrange(self.ring_pos as int, k as int).push(self.ring@[k as int]));
            k = k + 1;
        }
        let mut j: usize = 0;
        let ghost upper = tail@;
        while j < self.ring_pos
            invariant
                j <= self.ring_pos <= self.ring@.len(),
                tail@ == upper + self.ring@.take(j as int),
            decreases self.ring_pos - j,
        {
            tail.push(self.ring[j]);
            assert(self.ring@.take(j + 1) =~= self.ring@.take(j as int).push(self.ring@[j as int]));
            j = j + 1;
        }
        assert(tail@ =~= ring_view(self.ring@, self.ring_pos));
        let revision = hasher_finish(self.hasher);
        let report = self.catalog.into_report(source_name, revision, complete, self.tail_bytes);
        CatalogEvidence { report, prefix: self.prefix, tail, total: self.total }
    }
}

/// A streamed candidate's sidebar report and its evidence.
pub struct CatalogEvidence {
    pub report: ScanReport,
    pub prefix: Vec<u8>,
    pub tail: Vec<u8>,
    pub total: usize,
}

// ---------------------------------------------------------------------------
// Source evidence

/// The native identity of an opened file: its device and inode.
#[derive(Clone, Copy, Debug, PartialEq, Eq, Structural)]
pub enum PlatformFileIdentity {
    Unix { device: u64, inode: u64 },
}

pub open spec fn identity_text(i: PlatformFileIdentity) -> Seq<char> {
    match i {
        PlatformFileIdentity::Unix { device, inode } => "unix:"@ + decimal(device as nat) + ":"@ + decimal(inode as nat),
    }
}

/// The stored identity a text names: `unix:<device>:<inode>`, each an
/// unsigned integer.
pub open spec fn identity_from_text(s: Seq<char>) -> Option<PlatformFileIdentity> {
    let fields = split_on(s, ':');
    if fields.len() != 3 || fields[0] != "unix"@ {
        None
    } else {
        match (parse_u64_spec(fields[1]), parse_u64_spec(fields[2])) {
            (Some(device), Some(inode)) => Some(PlatformFileIdentity::Unix { device, inode }),
            _ => None,
        }
    }
}

impl PlatformFileIdentity {
    pub fn storage_value(&self) -> (r: String)
        ensures
            r@ == identity_text(*self),
    {
        match self {
            PlatformFileIdentity::Unix { device, inode } => {
                let mut s = String::new();
                push_str(&mut s, "unix:");
                push_decimal(&mut s, *device);
                push_str(&mut s, ":");
                push_decimal(&mut s, *inode);
                s
            },
        }
    }

    pub fn from_storage(value: &str) -> (r: Option<Self>)
        ensures
            r == identity_from_text(value@),
    {
        let fields = split_str(value, ':');
        let ghost fv = fields@.map_values(|f: String| f@);
        if fields.len() != 3 {
            return None;
        }
        if !str_eq(fields[0].as_str(), "unix") {
            return None;
        }
        let device = match parse_u64(fields[1].as_str()) {
            Some(d) => d,
            None => return None,
        };
        let inode = match parse_u64(fields[2].as_str()) {
            Some(i) => i,
            None => return None,
        };
        Some(PlatformFileIdentity::Unix { device, inode })
    }
}

proof fn lemma_decimal_has_no_colon(n: u64)
    ensures
        !decimal(n as nat).contains(':'),
        parse_u64_spec(decimal(n as nat)) == Some(n),
{
    crate::contributions::lemma_decimal_digits(n as nat);
    crate::contributions::lemma_parse_decimal(n);
    let d = decimal(n as nat);
    if d.contains(':') {
        let k = choose|k: int| 0 <= k < d.len() && d[k] == ':';
        assert(crate::contributions::is_digit(d[k]));
    }
}

/// A stored identity reads back as the identity that was stored.
pub proof fn lemma_identity_round_trip(i: PlatformFileIdentity)
    ensures
        identity_from_text(identity_text(i)) == Some(i),
{
    match i {
        PlatformFileIdentity::Unix { device, inode } => {
            let d = decimal(device as nat);
            let n = decimal(inode as nat);
            lemma_decimal_has_no_colon(device);
            lemma_decimal_has_no_colon(inode);
            reveal_strlit("unix:");
            reveal_strlit("unix");
            reveal_strlit(":");
            let unix = "unix"@;
            assert(!unix.contains(':')) by {
                if unix.contains(':') {
                    let k = choose|k: int| 0 <= k < unix.len() && unix[k] == ':';
                    assert(unix[k] != ':');
                }
            }
            crate::text::lemma_split_on_extend(Seq::<char>::empty(), unix, ':');
            assert(Seq::<char>::empty() + unix =~= unix);
            assert(split_on(Seq::<char>::empty(), ':') == seq![Seq::<char>::empty()]);
            assert(Seq::<char>::empty() + unix =~= unix);
            assert(split_on(unix, ':') =~= seq![unix]);
            crate::text::lemma_split_on_join(unix, d, ':');
            let first = unix + seq![':'] + d;
            crate::text::lemma_split_on_join(first, n, ':');
            assert(identity_text(i) =~= first + seq![':'] + n);
            assert(split_on(identity_text(i), ':') =~= seq![unix, d, n]);
        },
    }
}

/// The little-endian bytes of `n`.
pub open spec fn le_bytes(n: u64) -> Seq<u8> {
    Seq::new(8, |k: int| ((n >> ((8 * k) as u64)) & 0xff) as u8)
}

fn push_le_bytes(out: &mut Vec<u8>, n: u64)
    ensures
        final(out)@ == old(out)@ + le_bytes(n),
{
    let ghost start = old(out)@;
    let mut k: u64 = 0;
    while k < 8
        invariant
            k <= 8,
            out@ == start + le_bytes(n).take(k as int),
        decreases 8 - k,
    {
        out.push(((n >> (8 * k)) & 0xff) as u8);
        assert(le_bytes(n).take(k + 1) =~= le_bytes(n).take(k as int).push(((n >> ((8 * k) as u64)) & 0xff) as u8));
        k = k + 1;
    }
    assert(le_bytes(n).take(8) =~= le_bytes(n));
}

/// The tag that starts every continuity message.
pub const CONTINUITY_TAG: &'static str = "piui-discovery-continuity-v1\\0";

/// What the continuity digest hashes: the tag, the source length, then the
/// prefix and the tail, each after its length.
pub open spec fn continuity_message(prefix: Seq<u8>, tail: Seq<u8>, length: u64) -> Seq<u8> {
    encode_utf8(CONTINUITY_TAG@) + le_bytes(length) + le_bytes(prefix.len() as u64) + prefix + le_bytes(tail.len() as u64)
        + tail
}

/// Weak evidence that a source continues unchanged: never a proof of
/// content, only a reason to skip a full projection.
pub fn continuity_digest(prefix: &[u8], tail: &[u8], length: u64) -> (r: String)
    ensures
        r@ == sha256_hex_of(continuity_message(prefix@, tail@, length)),
{
    let tag = CONTINUITY_TAG.as_bytes();
    let mut message: Vec<u8> = Vec::new();
    let mut i: usize = 0;
    while i < tag.len()
        invariant
            i <= tag@.len(),
            message@ == tag@.take(i as int),
        decreases tag.len() - i,
    {
        message.push(tag[i]);
        assert(tag@.take(i + 1) =~= tag@.take(i as int).push(tag@[i as int]));
        i = i + 1;
    }
    assert(tag@.take(tag@.len() as int) =~= tag@);
    push_le_bytes(&mut message, length);
    push_le_bytes(&mut message, prefix.len() as u64);
    append_bytes(&mut message, prefix);
    push_le_bytes(&mut message, tail.len() as u64);
    append_bytes(&mut message, tail);
    assert(message@ =~= continuity_message(prefix@, tail@, length));
    sha256(message.as_slice())
}

fn append_bytes(out: &mut Vec<u8>, bytes: &[u8])
    ensures
        final(out)@ == old(out)@ + bytes@,
{
    let ghost start = old(out)@;
    let mut i: usize = 0;
    while i < bytes.len()
        invariant
            i <= bytes@.len(),
            out@ == start + bytes@.take(i as int),
        decreases bytes.len() - i,
    {
        out.push(bytes[i]);
        assert(bytes@.take(i + 1) =~= bytes@.take(i as int).push(bytes@[i as int]));
        i = i + 1;
    }
    assert(bytes@.take(bytes@.len() as int) =~= bytes@);
}

/// Host-private evidence about a discovered source: its identity, length,
/// modification stamp, continuity digest and the evidence format version.
#[derive(Clone, Debug, PartialEq, Eq)]
pub struct SourceFingerprint {
    pub identity: PlatformFileIdentity,
    pub length: u64,
    pub modified_stamp: Option<i64>,
    pub continuity_digest: String,
    pub parser_version: i64,
}

pub open spec fn same_fingerprint_spec(a: SourceFingerprint, b: SourceFingerprint) -> bool {
    a.identity == b.identity && a.length == b.length && a.modified_stamp == b.modified_stamp
        && a.continuity_digest@ == b.continuity_digest@ && a.parser_version == b.parser_version
}

impl SourceFingerprint {
    /// The evidence of a source whose prefix and tail were read.
    pub fn observed(identity: PlatformFileIdentity, length: u64, modified_stamp: Option<i64>, prefix: &[u8], tail: &[u8]) -> (r: Self)
        ensures
            r.identity == identity,
            r.length == length,
            r.modified_stamp == modified_stamp,
            r.continuity_digest@ == sha256_hex_of(continuity_message(prefix@, tail@, length)),
            r.parser_version == DISCOVERY_FINGERPRINT_PARSER_VERSION,
    {
        SourceFingerprint {
            identity,
            length,
            modified_stamp,
            continuity_digest: continuity_digest(prefix, tail, length),
            parser_version: DISCOVERY_FINGERPRINT_PARSER_VERSION,
        }
    }

    /// Whether two pieces of evidence agree field for field.
    pub fn matches(&self, other: &SourceFingerprint) -> (r: bool)
        ensures
            r == same_fingerprint_spec(*self, *other),
    {
        self.identity == other.identity && self.length == other.length && self.modified_stamp == other.modified_stamp
            && str_eq(self.continuity_digest.as_str(), other.continuity_digest.as_str())
            && self.parser_version == other.parser_version
    }
}

} // verus!
