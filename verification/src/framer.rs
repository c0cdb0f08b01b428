//! Framing of a fragmented-MP4 byte stream.
//!
//! The encoder writes a sequence of length-prefixed atoms. The framer cuts that
//! stream into atoms, collects everything before the first `moof` as the
//! initialization header, and packages each `moof` with the atoms that follow it,
//! up to and including the next `mdat`, into one fragment.
//!
//! The mathematical model is [`FramerState`] with the functions [`spec_accept`],
//! [`spec_drain`] and [`spec_feed`]; the executable [`Framer`] is proved to follow
//! it. The laws at the end of the file say that how the stream is cut into reads
//! does not matter, and what a well-formed stream yields.

use crate::buffers::{buffer_limit, buffered, frozen};
use bytes::Bytes;
use bytes::BytesMut;
use vstd::prelude::*;

verus! {

/// Largest size an atom with an extended (64-bit) size field may declare.
pub const MAX_EXTENDED_ATOM_SIZE: u64 = 100 * 1024 * 1024;

/// The four bytes at `at`, read as a big-endian number.
pub open spec fn be_u32_at(b: Seq<u8>, at: int) -> nat {
    (b[at] as nat) * 0x100_0000 + (b[at + 1] as nat) * 0x1_0000 + (b[at + 2] as nat) * 0x100
        + (b[at + 3] as nat)
}

/// The eight bytes at `at`, read as a big-endian number.
pub open spec fn be_u64_at(b: Seq<u8>, at: int) -> nat {
    be_u32_at(b, at) * 0x1_0000_0000 + be_u32_at(b, at + 4)
}

/// What the bytes at the head of a buffer say about the next atom.
pub enum AtomScan {
    /// The header, or the atom it announces, has not arrived in full.
    Incomplete,
    /// The declared size is smaller than an atom header.
    Undersized(nat),
    /// The extended size exceeds [`MAX_EXTENDED_ATOM_SIZE`].
    Oversized(nat),
    /// A whole atom of this many bytes is at the head.
    Complete(nat),
}

/// Reads the atom header at the head of `buf`.
///
/// A header is a 32-bit size and a 32-bit type. A size of 1 announces a 64-bit
/// size in the eight bytes after the type. The size counts the header.
pub open spec fn scan_atom(buf: Seq<u8>) -> AtomScan {
    if buf.len() < 8 {
        AtomScan::Incomplete
    } else if be_u32_at(buf, 0) == 1 {
        if buf.len() < 16 {
            AtomScan::Incomplete
        } else if be_u64_at(buf, 8) > MAX_EXTENDED_ATOM_SIZE {
            AtomScan::Oversized(be_u64_at(buf, 8))
        } else if be_u64_at(buf, 8) < 8 {
            AtomScan::Undersized(be_u64_at(buf, 8))
        } else if buf.len() < be_u64_at(buf, 8) {
            AtomScan::Incomplete
        } else {
            AtomScan::Complete(be_u64_at(buf, 8))
        }
    } else if be_u32_at(buf, 0) < 8 {
        AtomScan::Undersized(be_u32_at(buf, 0))
    } else if buf.len() < be_u32_at(buf, 0) {
        AtomScan::Incomplete
    } else {
        AtomScan::Complete(be_u32_at(buf, 0))
    }
}

/// The type code `moof`.
pub open spec fn moof_code() -> Seq<u8> {
    seq![0x6du8, 0x6fu8, 0x6fu8, 0x66u8]
}

/// The type code `mdat`.
pub open spec fn mdat_code() -> Seq<u8> {
    seq![0x6du8, 0x64u8, 0x61u8, 0x74u8]
}

/// Whether bytes 4..8 of `atom` are the given type code.
pub open spec fn has_type(atom: Seq<u8>, code: Seq<u8>) -> bool {
    atom.len() >= 8 && atom.subrange(4, 8) == code
}

/// Whether `atom` opens a fragment.
pub open spec fn is_moof(atom: Seq<u8>) -> bool {
    has_type(atom, moof_code())
}

/// Whether `atom` closes a fragment.
pub open spec fn is_mdat(atom: Seq<u8>) -> bool {
    has_type(atom, mdat_code())
}

/// The framer as a mathematical value.
pub struct FramerState {
    /// Bytes received that do not yet make up a whole atom.
    pub pending: Seq<u8>,
    /// Atoms seen before the first `moof`.
    pub header: Seq<u8>,
    /// Whether the first `moof` has been seen.
    pub captured: bool,
    /// The fragment under construction; empty between fragments.
    pub fragment: Seq<u8>,
}

/// What the framer hands out: at most one header, and fragments in stream order.
pub struct Emitted {
    pub header: Option<Seq<u8>>,
    pub fragments: Seq<Seq<u8>>,
}

impl Emitted {
    /// Nothing handed out.
    pub open spec fn nothing() -> Emitted {
        Emitted { header: None, fragments: Seq::empty() }
    }

    /// `self` followed by `later`. The earlier header wins.
    pub open spec fn followed_by(self, later: Emitted) -> Emitted {
        Emitted {
            header: if self.header is Some {
                self.header
            } else {
                later.header
            },
            fragments: self.fragments + later.fragments,
        }
    }
}

impl FramerState {
    /// The framer before any byte has arrived.
    pub open spec fn initial() -> FramerState {
        FramerState {
            pending: Seq::empty(),
            header: Seq::empty(),
            captured: false,
            fragment: Seq::empty(),
        }
    }

    /// Number of bytes the framer holds.
    pub open spec fn held(self) -> nat {
        self.pending.len() + self.header.len() + self.fragment.len()
    }

    /// The fragment under construction, if any, starts with a `moof`, and none is
    /// under construction before the header is captured.
    pub open spec fn wf(self) -> bool {
        &&& self.fragment.len() > 0 ==> is_moof(self.fragment)
        &&& !self.captured ==> self.fragment.len() == 0
    }

    /// No whole atom waits at the head of the pending bytes. This holds of a
    /// fresh framer and after every read.
    pub open spec fn drained(self) -> bool {
        !(scan_atom(self.pending) is Complete)
    }

    /// `self` with other pending bytes.
    pub open spec fn with_pending(self, pending: Seq<u8>) -> FramerState {
        FramerState { pending, ..self }
    }
}

/// Takes one whole atom into the state.
///
/// Before the header is captured, a `moof` publishes the header and opens the
/// first fragment; any other atom joins the header. Afterwards a `moof` flushes
/// an unfinished fragment and opens the next one; any other atom joins the open
/// fragment, and an `mdat` closes it. Atoms that arrive while no fragment is open
/// are dropped.
pub open spec fn spec_accept(s: FramerState, atom: Seq<u8>) -> (FramerState, Emitted) {
    if !s.captured {
        if is_moof(atom) {
            (
                FramerState { captured: true, fragment: s.fragment + atom, ..s },
                Emitted { header: Some(s.header), fragments: Seq::empty() },
            )
        } else {
            (FramerState { header: s.header + atom, ..s }, Emitted::nothing())
        }
    } else if is_moof(atom) {
        (
            FramerState { fragment: atom, ..s },
            Emitted {
                header: None,
                fragments: if s.fragment.len() > 0 {
                    seq![s.fragment]
                } else {
                    Seq::empty()
                },
            },
        )
    } else if s.fragment.len() == 0 {
        (s, Emitted::nothing())
    } else if is_mdat(atom) {
        (
            FramerState { fragment: Seq::empty(), ..s },
            Emitted { header: None, fragments: seq![s.fragment + atom] },
        )
    } else {
        (FramerState { fragment: s.fragment + atom, ..s }, Emitted::nothing())
    }
}

/// Takes every whole atom at the head of the pending bytes into the state, and
/// stops at the first head that is incomplete or invalid.
pub open spec fn spec_drain(s: FramerState) -> (FramerState, Emitted)
    decreases s.pending.len(),
{
    match scan_atom(s.pending) {
        AtomScan::Complete(n) => {
            let atom = s.pending.subrange(0, n as int);
            let rest = s.pending.subrange(n as int, s.pending.len() as int);
            let (s1, e1) = spec_accept(s.with_pending(rest), atom);
            let (s2, e2) = spec_drain(s1);
            (s2, e1.followed_by(e2))
        },
        _ => (s, Emitted::nothing()),
    }
}

/// One read: appends `chunk` to the pending bytes and drains.
pub open spec fn spec_feed(s: FramerState, chunk: Seq<u8>) -> (FramerState, Emitted) {
    spec_drain(s.with_pending(s.pending + chunk))
}

/// A sequence of reads, one after the other.
pub open spec fn spec_feed_all(s: FramerState, chunks: Seq<Seq<u8>>) -> (FramerState, Emitted)
    decreases chunks.len(),
{
    if chunks.len() == 0 {
        (s, Emitted::nothing())
    } else {
        let (s1, e1) = spec_feed_all(s, chunks.drop_last());
        let (s2, e2) = spec_feed(s1, chunks.last());
        (s2, e1.followed_by(e2))
    }
}

/// The pieces laid end to end.
pub open spec fn concat_all(pieces: Seq<Seq<u8>>) -> Seq<u8>
    decreases pieces.len(),
{
    if pieces.len() == 0 {
        Seq::empty()
    } else {
        concat_all(pieces.drop_last()) + pieces.last()
    }
}

/// Why the framer stopped short of the end of its input.
#[derive(Clone, Copy, Debug, PartialEq, Eq, Structural)]
pub enum FramerFault {
    /// The atom at the head declares a size below 8.
    InvalidAtomSize(u64),
    /// The atom at the head declares an extended size above the cap.
    AtomTooLarge(u64),
}

/// The fault, if any, that a scan result stands for.
pub open spec fn fault_of(scan: AtomScan) -> Option<FramerFault> {
    match scan {
        AtomScan::Undersized(n) => Some(FramerFault::InvalidAtomSize(n as u64)),
        AtomScan::Oversized(n) => Some(FramerFault::AtomTooLarge(n as u64)),
        _ => None,
    }
}

/// The outcome of one read.
pub struct FramerOutput {
    /// The initialization header, on the read that completes it.
    pub header: Option<Bytes>,
    /// The fragments completed by this read, in stream order.
    pub fragments: Vec<Bytes>,
    /// Set when the read stopped at an atom with an invalid size.
    pub fault: Option<FramerFault>,
}

impl FramerOutput {
    /// The header and fragments as byte sequences.
    pub open spec fn view(&self) -> Emitted {
        Emitted {
            header: match self.header {
                Some(h) => Some(frozen(h)),
                None => None,
            },
            fragments: self.fragments@.map_values(|b: Bytes| frozen(b)),
        }
    }
}

/// Result of scanning the head of a buffer, in machine integers.
enum Scanned {
    Incomplete,
    Undersized(u64),
    Oversized(u64),
    Complete(usize),
}

impl Scanned {
    spec fn view(&self) -> AtomScan {
        match *self {
            Scanned::Incomplete => AtomScan::Incomplete,
            Scanned::Undersized(n) => AtomScan::Undersized(n as nat),
            Scanned::Oversized(n) => AtomScan::Oversized(n as nat),
            Scanned::Complete(n) => AtomScan::Complete(n as nat),
        }
    }
}

fn read_be_u32(b: &[u8], at: usize) -> (r: u32)
    requires
        at + 4 <= b@.len(),
    ensures
        r == be_u32_at(b@, at as int),
        at + 4 <= usize::MAX,
{
    let b0: u32 = b[at] as u32;
    let b1: u32 = b[at + 1] as u32;
    let b2: u32 = b[at + 2] as u32;
    let b3: u32 = b[at + 3] as u32;
    b0 * 0x100_0000 + b1 * 0x1_0000 + b2 * 0x100 + b3
}

fn read_be_u64(b: &[u8], at: usize) -> (r: u64)
    requires
        at + 8 <= b@.len(),
    ensures
        r == be_u64_at(b@, at as int),
{
    let hi: u64 = read_be_u32(b, at) as u64;
    let lo: u64 = read_be_u32(b, at + 4) as u64;
    hi * 0x1_0000_0000 + lo
}

fn scan_head(buf: &[u8]) -> (r: Scanned)
    ensures
        r@ == scan_atom(buf@),
{
    let len: usize = buf.len();
    if len < 8 {
        return Scanned::Incomplete;
    }
    let size: u32 = read_be_u32(buf, 0);
    if size == 1 {
        if len < 16 {
            return Scanned::Incomplete;
        }
        let huge: u64 = read_be_u64(buf, 8);
        if huge > MAX_EXTENDED_ATOM_SIZE {
            Scanned::Oversized(huge)
        } else if huge < 8 {
            Scanned::Undersized(huge)
        } else if (len as u64) < huge {
            Scanned::Incomplete
        } else {
            Scanned::Complete(huge as usize)
        }
    } else if size < 8 {
        Scanned::Undersized(size as u64)
    } else if len < size as usize {
        Scanned::Incomplete
    } else {
        Scanned::Complete(size as usize)
    }
}

fn type_is(atom: &[u8], c0: u8, c1: u8, c2: u8, c3: u8) -> (r: bool)
    ensures
        r == has_type(atom@, seq![c0, c1, c2, c3]),
{
    if atom.len() < 8 {
        return false;
    }
    let r = atom[4] == c0 && atom[5] == c1 && atom[6] == c2 && atom[7] == c3;
    proof {
        let t = atom@.subrange(4, 8);
        let code = seq![c0, c1, c2, c3];
        if r {
            assert(t =~= code);
        } else {
            assert(t[0] == atom@[4] && t[1] == atom@[5] && t[2] == atom@[6] && t[3] == atom@[7]);
            assert(code[0] == c0 && code[1] == c1 && code[2] == c2 && code[3] == c3);
        }
    }
    r
}

/// Cuts the encoder's output into an initialization header and fragments.
pub struct Framer {
    stream_buffer: BytesMut,
    header_buffer: BytesMut,
    header_captured: bool,
    fragment_buffer: BytesMut,
}

impl Framer {
    /// The framer as a mathematical value.
    pub closed spec fn view(&self) -> FramerState {
        FramerState {
            pending: buffered(self.stream_buffer),
            header: buffered(self.header_buffer),
            captured: self.header_captured,
            fragment: buffered(self.fragment_buffer),
        }
    }

    /// A framer that has seen no byte.
    pub fn new() -> (f: Framer)
        ensures
            f@ == FramerState::initial(),
            f@.wf(),
            f@.drained(),
    {
        Framer {
            stream_buffer: BytesMut::new(),
            header_buffer: BytesMut::new(),
            header_captured: false,
            fragment_buffer: BytesMut::new(),
        }
    }

    /// Whether the initialization header has been handed out.
    pub fn header_captured(&self) -> (r: bool)
        ensures
            r == self@.captured,
    {
        self.header_captured
    }

    /// Number of received bytes that do not yet make up a whole atom.
    pub fn pending_len(&self) -> (r: usize)
        ensures
            r == self@.pending.len(),
    {
        self.stream_buffer.len()
    }

    /// Whether a read of `extra` bytes keeps the held bytes within what a
    /// buffer may hold, as [`Framer::feed`] requires.
    pub fn has_room_for(&self, extra: usize) -> (r: bool)
        ensures
            r == (self@.held() + extra <= buffer_limit()),
    {
        let limit: u128 = isize::MAX as u128 / 4;
        let held: u128 = self.stream_buffer.len() as u128 + self.header_buffer.len() as u128
            + self.fragment_buffer.len() as u128;
        held + extra as u128 <= limit
    }

    fn accept(&mut self, atom: &[u8], out: &mut FramerOutput)
        requires
            old(self)@.wf(),
            old(self)@.held() + atom@.len() <= buffer_limit(),
            atom@.len() >= 8,
        ensures
            final(self)@ == spec_accept(old(self)@, atom@).0,
            final(out)@ == old(out)@.followed_by(spec_accept(old(self)@, atom@).1),
            final(out).fault == old(out).fault,
            final(self)@.wf(),
            final(self)@.held() <= old(self)@.held() + atom@.len(),
    {
        let moof = type_is(atom, 0x6d, 0x6f, 0x6f, 0x66);
        if !self.header_captured {
            if moof {
                if out.header.is_none() {
                    out.header = Some(self.header_buffer.clone().freeze());
                }
                self.header_captured = true;
                self.fragment_buffer.extend_from_slice(atom);
                proof {
                    assert(buffered(self.fragment_buffer) =~= atom@);
                }
            } else {
                self.header_buffer.extend_from_slice(atom);
            }
        } else if moof {
            if !self.fragment_buffer.is_empty() {
                let done = self.fragment_buffer.split().freeze();
                out.fragments.push(done);
                proof {
                    lemma_pushed(old(out).fragments@, done);
                }
            }
            self.fragment_buffer.extend_from_slice(atom);
            proof {
                assert(buffered(self.fragment_buffer) =~= atom@);
            }
        } else if !self.fragment_buffer.is_empty() {
            self.fragment_buffer.extend_from_slice(atom);
            if type_is(atom, 0x6d, 0x64, 0x61, 0x74) {
                let done = self.fragment_buffer.split().freeze();
                out.fragments.push(done);
                proof {
                    lemma_pushed(old(out).fragments@, done);
                }
            }
        }
        proof {
            let want = old(out)@.followed_by(spec_accept(old(self)@, atom@).1);
            assert(out@.fragments =~= want.fragments);
            if old(self)@.fragment.len() > 0 {
                lemma_type_of_prefix(old(self)@.fragment, atom@, moof_code());
            }
        }
    }

    /// Takes one read from the encoder and hands out what it completes.
    ///
    /// The new state and the output are those of [`spec_feed`]. A fault is
    /// reported exactly when the bytes left pending start with an atom whose
    /// size is invalid; such an atom stays at the head.
    pub fn feed(&mut self, chunk: &[u8]) -> (out: FramerOutput)
        requires
            old(self)@.wf(),
            old(self)@.held() + chunk@.len() <= buffer_limit(),
        ensures
            final(self)@ == spec_feed(old(self)@, chunk@).0,
            out@ == spec_feed(old(self)@, chunk@).1,
            out.fault == fault_of(scan_atom(final(self)@.pending)),
            final(self)@.wf(),
            final(self)@.drained(),
            forall|i: int| 0 <= i < out@.fragments.len() ==> is_moof(#[trigger] out@.fragments[i]),
            final(self)@.held() <= old(self)@.held() + chunk@.len(),
    {
        let ghost bound = old(self)@.held() + chunk@.len();
        self.stream_buffer.extend_from_slice(chunk);
        let ghost start = self@;
        proof {
            lemma_drained(start);
            lemma_fragments_start_with_moof(old(self)@, chunk@);
        }
        let mut out = FramerOutput { header: None, fragments: Vec::new(), fault: None };
        proof {
            assert(out@.fragments =~= Seq::<Seq<u8>>::empty());
            lemma_followed_by_nothing(spec_drain(start).1);
        }
        loop
            invariant_except_break
                out.fault is None,
            invariant
                self@.wf(),
                self@.held() <= bound,
                bound <= buffer_limit(),
                spec_drain(start).0 == spec_drain(self@).0,
                spec_drain(start).1 == out@.followed_by(spec_drain(self@).1),
            ensures
                self@ == spec_drain(start).0,
                out@ == spec_drain(start).1,
                out.fault == fault_of(scan_atom(self@.pending)),
                self@.wf(),
                self@.held() <= bound,
            decreases self@.pending.len(),
        {
            let ghost here = self@;
            let ghost sofar = out@;
            let scanned = scan_head(self.stream_buffer.as_ref());
            match scanned {
                Scanned::Complete(n) => {
                    let atom = self.stream_buffer.split_to(n).freeze();
                    self.accept(atom.as_ref(), &mut out);
                    proof {
                        let step = spec_accept(
                            here.with_pending(here.pending.subrange(n as int, here.pending.len() as int)),
                            here.pending.subrange(0, n as int),
                        );
                        lemma_followed_by_assoc(sofar, step.1, spec_drain(step.0).1);
                    }
                },
                Scanned::Undersized(n) => {
                    out.fault = Some(FramerFault::InvalidAtomSize(n));
                    proof {
                        lemma_followed_by_nothing(sofar);
                    }
                    break;
                },
                Scanned::Oversized(n) => {
                    out.fault = Some(FramerFault::AtomTooLarge(n));
                    proof {
                        lemma_followed_by_nothing(sofar);
                    }
                    break;
                },
                Scanned::Incomplete => {
                    proof {
                        lemma_followed_by_nothing(sofar);
                    }
                    break;
                },
            }
        }
        out
    }
}

proof fn lemma_type_of_prefix(head: Seq<u8>, tail: Seq<u8>, code: Seq<u8>)
    requires
        has_type(head, code),
    ensures
        has_type(head + tail, code),
{
    assert((head + tail).subrange(4, 8) =~= head.subrange(4, 8));
}

proof fn lemma_pushed(before: Seq<Bytes>, done: Bytes)
    ensures
        before.push(done).map_values(|b: Bytes| frozen(b)) == before.map_values(
            |b: Bytes| frozen(b),
        ) + seq![frozen(done)],
{
    assert(before.push(done).map_values(|b: Bytes| frozen(b)) =~= before.map_values(
        |b: Bytes| frozen(b),
    ) + seq![frozen(done)]);
}

proof fn lemma_followed_by_nothing(e: Emitted)
    ensures
        e.followed_by(Emitted::nothing()) == e,
        Emitted::nothing().followed_by(e) == e,
{
    assert(e.followed_by(Emitted::nothing()).fragments =~= e.fragments);
    assert(Emitted::nothing().followed_by(e).fragments =~= e.fragments);
}

proof fn lemma_followed_by_assoc(a: Emitted, b: Emitted, c: Emitted)
    ensures
        a.followed_by(b).followed_by(c) == a.followed_by(b.followed_by(c)),
{
    assert(a.followed_by(b).followed_by(c).fragments =~= a.followed_by(b.followed_by(c)).fragments);
}

/// A whole atom at the head of a buffer stays the same atom when more bytes
/// arrive behind it.
proof fn lemma_scan_prefix(p: Seq<u8>, extra: Seq<u8>)
    requires
        scan_atom(p) is Complete,
    ensures
        scan_atom(p + extra) == scan_atom(p),
        (p + extra).subrange(0, scan_atom(p)->Complete_0 as int) == p.subrange(
            0,
            scan_atom(p)->Complete_0 as int,
        ),
        (p + extra).subrange(scan_atom(p)->Complete_0 as int, (p + extra).len() as int)
            == p.subrange(scan_atom(p)->Complete_0 as int, p.len() as int) + extra,
{
    let q = p + extra;
    let n = scan_atom(p)->Complete_0 as int;
    assert(forall|i: int| 0 <= i < p.len() ==> q[i] == p[i]);
    assert(q.subrange(0, n) =~= p.subrange(0, n));
    assert(q.subrange(n, q.len() as int) =~= p.subrange(n, p.len() as int) + extra);
}

/// Draining, then appending bytes and draining again, is draining with the
/// bytes appended from the start.
proof fn lemma_drain_append(s: FramerState, extra: Seq<u8>)
    ensures
        ({
            let (s1, e1) = spec_drain(s);
            let (s2, e2) = spec_drain(s1.with_pending(s1.pending + extra));
            spec_drain(s.with_pending(s.pending + extra)) == (s2, e1.followed_by(e2))
        }),
    decreases s.pending.len(),
{
    let (s1, e1) = spec_drain(s);
    let (s2, e2) = spec_drain(s1.with_pending(s1.pending + extra));
    match scan_atom(s.pending) {
        AtomScan::Complete(n) => {
            lemma_scan_prefix(s.pending, extra);
            let atom = s.pending.subrange(0, n as int);
            let rest = s.pending.subrange(n as int, s.pending.len() as int);
            let (t, et) = spec_accept(s.with_pending(rest), atom);
            assert(t.pending == rest);
            lemma_drain_append(t, extra);
            let (t1, f1) = spec_drain(t);
            assert(s1 == t1);
            assert(e1 == et.followed_by(f1));
            let long = s.with_pending(s.pending + extra);
            let (u, eu) = spec_accept(long.with_pending(rest + extra), atom);
            assert(u == t.with_pending(t.pending + extra));
            assert(eu == et);
            assert(spec_drain(long) == (spec_drain(u).0, eu.followed_by(spec_drain(u).1)));
            lemma_followed_by_assoc(et, f1, e2);
        },
        _ => {
            lemma_followed_by_nothing(e2);
        },
    }
}

/// Cutting one read in two changes nothing: feeding `a` and then `b` leaves the
/// framer in the state, and hands out in total the header and fragments, of
/// feeding `a + b` at once.
pub proof fn lemma_feed_split(s: FramerState, a: Seq<u8>, b: Seq<u8>)
    ensures
        ({
            let (s1, e1) = spec_feed(s, a);
            let (s2, e2) = spec_feed(s1, b);
            spec_feed(s, a + b) == (s2, e1.followed_by(e2))
        }),
{
    let t = s.with_pending(s.pending + a);
    lemma_drain_append(t, b);
    assert(s.pending + (a + b) =~= (s.pending + a) + b);
    assert(t.with_pending(t.pending + b) == s.with_pending(s.pending + (a + b)));
}

/// However a byte stream is cut into reads, the framer ends in the same state
/// and hands out the same header and the same fragments as when it receives the
/// whole stream in one read.
pub proof fn lemma_feed_chunks(s: FramerState, chunks: Seq<Seq<u8>>)
    requires
        s.drained(),
    ensures
        spec_feed_all(s, chunks) == spec_feed(s, concat_all(chunks)),
    decreases chunks.len(),
{
    if chunks.len() == 0 {
        assert(s.pending + concat_all(chunks) =~= s.pending);
        assert(s.with_pending(s.pending) == s);
    } else {
        lemma_feed_chunks(s, chunks.drop_last());
        lemma_feed_split(s, concat_all(chunks.drop_last()), chunks.last());
    }
}

/// After draining, no whole atom is left at the head of the pending bytes.
pub proof fn lemma_drained(s: FramerState)
    ensures
        spec_drain(s).0.drained(),
    decreases s.pending.len(),
{
    match scan_atom(s.pending) {
        AtomScan::Complete(n) => {
            let atom = s.pending.subrange(0, n as int);
            let rest = s.pending.subrange(n as int, s.pending.len() as int);
            lemma_drained(spec_accept(s.with_pending(rest), atom).0);
        },
        _ => {},
    }
}

/// Every fragment handed out starts with a `moof` atom, and the framer stays
/// well formed.
pub proof fn lemma_fragments_start_with_moof(s: FramerState, chunk: Seq<u8>)
    requires
        s.wf(),
    ensures
        spec_feed(s, chunk).0.wf(),
        forall|i: int|
            0 <= i < spec_feed(s, chunk).1.fragments.len() ==> is_moof(
                #[trigger] spec_feed(s, chunk).1.fragments[i],
            ),
{
    lemma_drain_fragments(s.with_pending(s.pending + chunk));
}

proof fn lemma_drain_fragments(s: FramerState)
    requires
        s.wf(),
    ensures
        spec_drain(s).0.wf(),
        forall|i: int|
            0 <= i < spec_drain(s).1.fragments.len() ==> is_moof(
                #[trigger] spec_drain(s).1.fragments[i],
            ),
    decreases s.pending.len(),
{
    match scan_atom(s.pending) {
        AtomScan::Complete(n) => {
            let atom = s.pending.subrange(0, n as int);
            let rest = s.pending.subrange(n as int, s.pending.len() as int);
            let before = s.with_pending(rest);
            let (t, et) = spec_accept(before, atom);
            if before.fragment.len() > 0 {
                lemma_type_of_prefix(before.fragment, atom, moof_code());
            } else {
                assert(before.fragment + atom =~= atom);
            }
            lemma_drain_fragments(t);
        },
        _ => {},
    }
}

/// The header is handed out once: by the read that sees the first `moof`, and
/// never after it.
pub proof fn lemma_header_once(s: FramerState, chunk: Seq<u8>)
    ensures
        s.captured ==> spec_feed(s, chunk).1.header is None && spec_feed(s, chunk).0.captured,
        !s.captured ==> (spec_feed(s, chunk).1.header is Some <==> spec_feed(s, chunk).0.captured),
        spec_feed(s, chunk).1.header is Some ==> spec_feed(s, chunk).1.header == Some(
            spec_feed(s, chunk).0.header,
        ),
{
    lemma_drain_header(s.with_pending(s.pending + chunk));
}

proof fn lemma_drain_header(s: FramerState)
    ensures
        s.captured ==> spec_drain(s).1.header is None && spec_drain(s).0.captured
            && spec_drain(s).0.header == s.header,
        !s.captured ==> (spec_drain(s).1.header is Some <==> spec_drain(s).0.captured),
        spec_drain(s).1.header is Some ==> spec_drain(s).1.header == Some(spec_drain(s).0.header),
    decreases s.pending.len(),
{
    match scan_atom(s.pending) {
        AtomScan::Complete(n) => {
            let atom = s.pending.subrange(0, n as int);
            let rest = s.pending.subrange(n as int, s.pending.len() as int);
            lemma_drain_header(spec_accept(s.with_pending(rest), atom).0);
        },
        _ => {},
    }
}

/// An atom with an invalid size stays at the head for good: whatever arrives
/// behind it, the scan reports the same fault and nothing more is handed out.
pub proof fn lemma_fault_persists(s: FramerState, chunk: Seq<u8>)
    requires
        fault_of(scan_atom(s.pending)) is Some,
    ensures
        scan_atom(s.pending + chunk) == scan_atom(s.pending),
        spec_feed(s, chunk) == (s.with_pending(s.pending + chunk), Emitted::nothing()),
{
    let q = s.pending + chunk;
    assert(forall|i: int| 0 <= i < s.pending.len() ==> q[i] == s.pending[i]);
}

/// An atom whose size field is valid and equals its length.
pub open spec fn well_formed_atom(atom: Seq<u8>) -> bool {
    scan_atom(atom) == AtomScan::Complete(atom.len())
}

/// A `moof` atom and the `mdat` atom that follows it.
pub struct FragmentAtoms {
    pub moof: Seq<u8>,
    pub mdat: Seq<u8>,
}

impl FragmentAtoms {
    /// Both atoms are well formed and of the right type.
    pub open spec fn valid(self) -> bool {
        &&& well_formed_atom(self.moof)
        &&& is_moof(self.moof)
        &&& well_formed_atom(self.mdat)
        &&& is_mdat(self.mdat)
    }

    /// The two atoms laid end to end.
    pub open spec fn bytes(self) -> Seq<u8> {
        self.moof + self.mdat
    }
}

/// A well-formed stream: initialization atoms, none of them a `moof`, followed
/// by fragments of one `moof` and one `mdat` each.
pub open spec fn well_formed_stream(init: Seq<Seq<u8>>, frags: Seq<FragmentAtoms>) -> bool {
    &&& forall|i: int|
        0 <= i < init.len() ==> well_formed_atom(#[trigger] init[i]) && !is_moof(init[i])
    &&& forall|j: int| 0 <= j < frags.len() ==> (#[trigger] frags[j]).valid()
}

/// The bytes of each fragment.
pub open spec fn fragment_bytes(frags: Seq<FragmentAtoms>) -> Seq<Seq<u8>> {
    frags.map_values(|f: FragmentAtoms| f.bytes())
}

/// The stream as the encoder writes it.
pub open spec fn stream_bytes(init: Seq<Seq<u8>>, frags: Seq<FragmentAtoms>) -> Seq<u8> {
    concat_all(init) + concat_all(fragment_bytes(frags))
}

proof fn lemma_concat_front(pieces: Seq<Seq<u8>>)
    requires
        pieces.len() > 0,
    ensures
        concat_all(pieces) == pieces[0] + concat_all(pieces.drop_first()),
    decreases pieces.len(),
{
    if pieces.len() == 1 {
        assert(pieces.drop_last() =~= Seq::<Seq<u8>>::empty());
        assert(pieces.drop_first() =~= Seq::<Seq<u8>>::empty());
        assert(concat_all(pieces) =~= pieces[0] + concat_all(pieces.drop_first()));
    } else {
        lemma_concat_front(pieces.drop_last());
        assert(pieces.drop_last().drop_first() =~= pieces.drop_first().drop_last());
        assert(concat_all(pieces) =~= pieces[0] + concat_all(pieces.drop_first()));
    }
}

/// Draining a buffer that starts with a well-formed atom accepts that atom and
/// goes on with what follows it.
proof fn lemma_drain_atom(s: FramerState, atom: Seq<u8>, rest: Seq<u8>)
    requires
        well_formed_atom(atom),
        s.pending == atom + rest,
    ensures
        ({
            let (t, et) = spec_accept(s.with_pending(rest), atom);
            spec_drain(s) == (spec_drain(t).0, et.followed_by(spec_drain(t).1))
        }),
{
    lemma_scan_prefix(atom, rest);
    assert(atom.subrange(0, atom.len() as int) =~= atom);
    assert(atom.subrange(atom.len() as int, atom.len() as int) + rest =~= rest);
}

proof fn lemma_drain_init(s: FramerState, init: Seq<Seq<u8>>, tail: Seq<u8>)
    requires
        !s.captured,
        s.pending == concat_all(init) + tail,
        forall|i: int|
            0 <= i < init.len() ==> well_formed_atom(#[trigger] init[i]) && !is_moof(init[i]),
    ensures
        spec_drain(s) == spec_drain(
            FramerState { pending: tail, header: s.header + concat_all(init), ..s },
        ),
    decreases init.len(),
{
    if init.len() == 0 {
        assert(concat_all(init) + tail =~= tail);
        assert(s.header + concat_all(init) =~= s.header);
    } else {
        lemma_concat_front(init);
        let first = init[0];
        let others = init.drop_first();
        let rest = concat_all(others) + tail;
        assert(s.pending =~= first + rest);
        lemma_drain_atom(s, first, rest);
        let (t, et) = spec_accept(s.with_pending(rest), first);
        lemma_followed_by_nothing(spec_drain(t).1);
        lemma_drain_init(t, others, tail);
        assert((s.header + first) + concat_all(others) =~= s.header + concat_all(init));
    }
}

proof fn lemma_drain_fragments_only(s: FramerState, frags: Seq<FragmentAtoms>)
    requires
        s.captured,
        s.fragment.len() == 0,
        s.pending == concat_all(fragment_bytes(frags)),
        forall|j: int| 0 <= j < frags.len() ==> (#[trigger] frags[j]).valid(),
    ensures
        spec_drain(s) == (
            s.with_pending(Seq::empty()),
            Emitted { header: None, fragments: fragment_bytes(frags) },
        ),
    decreases frags.len(),
{
    let pieces = fragment_bytes(frags);
    if frags.len() == 0 {
        assert(pieces =~= Seq::<Seq<u8>>::empty());
        assert(s.with_pending(Seq::empty()) == s);
    } else {
        lemma_concat_front(pieces);
        let f = frags[0];
        let others = frags.drop_first();
        assert(pieces.drop_first() =~= fragment_bytes(others));
        let after = concat_all(fragment_bytes(others));
        assert(s.pending =~= f.moof + (f.mdat + after));
        lemma_drain_atom(s, f.moof, f.mdat + after);
        let (t, et) = spec_accept(s.with_pending(f.mdat + after), f.moof);
        lemma_mdat_is_not_moof(f.mdat);
        lemma_drain_atom(t, f.mdat, after);
        let (u, eu) = spec_accept(t.with_pending(after), f.mdat);
        lemma_drain_fragments_only(u, others);
        assert(s.fragment =~= Seq::<u8>::empty());
        assert(u.with_pending(Seq::empty()) == s.with_pending(Seq::empty()));
        let total = et.followed_by(eu.followed_by(spec_drain(u).1));
        assert(total.fragments =~= pieces);
    }
}

proof fn lemma_mdat_is_not_moof(atom: Seq<u8>)
    requires
        is_mdat(atom),
    ensures
        !is_moof(atom),
{
    assert(mdat_code()[1] != moof_code()[1]);
}

/// A well-formed stream of initialization atoms and `n` fragments, received by
/// a fresh framer in one read, yields those `n` fragments, each a `moof` with
/// its `mdat`, in order. With at least one fragment it yields the header, which
/// is the initialization atoms laid end to end, and leaves nothing buffered;
/// without any fragment no header is handed out.
pub proof fn lemma_well_formed_stream(init: Seq<Seq<u8>>, frags: Seq<FragmentAtoms>)
    requires
        well_formed_stream(init, frags),
    ensures
        spec_feed(FramerState::initial(), stream_bytes(init, frags)).1 == (Emitted {
            header: if frags.len() > 0 {
                Some(concat_all(init))
            } else {
                None
            },
            fragments: fragment_bytes(frags),
        }),
        spec_feed(FramerState::initial(), stream_bytes(init, frags)).0 == (FramerState {
            pending: Seq::empty(),
            header: concat_all(init),
            captured: frags.len() > 0,
            fragment: Seq::empty(),
        }),
{
    let s0 = FramerState::initial();
    let tail = concat_all(fragment_bytes(frags));
    let s = s0.with_pending(s0.pending + stream_bytes(init, frags));
    assert(s.pending =~= concat_all(init) + tail);
    lemma_drain_init(s, init, tail);
    let h = FramerState { pending: tail, header: s.header + concat_all(init), ..s };
    assert(h.header =~= concat_all(init));
    let pieces = fragment_bytes(frags);
    if frags.len() == 0 {
        assert(pieces =~= Seq::<Seq<u8>>::empty());
    } else {
        lemma_concat_front(pieces);
        let f = frags[0];
        let others = frags.drop_first();
        assert(pieces.drop_first() =~= fragment_bytes(others));
        let after = concat_all(fragment_bytes(others));
        assert(h.pending =~= f.moof + (f.mdat + after));
        lemma_drain_atom(h, f.moof, f.mdat + after);
        let (t, et) = spec_accept(h.with_pending(f.mdat + after), f.moof);
        assert(t.fragment =~= f.moof);
        lemma_mdat_is_not_moof(f.mdat);
        lemma_drain_atom(t, f.mdat, after);
        let (u, eu) = spec_accept(t.with_pending(after), f.mdat);
        lemma_drain_fragments_only(u, others);
        let total = et.followed_by(eu.followed_by(spec_drain(u).1));
        assert(total.fragments =~= pieces);
    }
}


/// A well-formed stream yields the same header and the same fragments however
/// it is cut into reads.
pub proof fn lemma_well_formed_stream_in_chunks(
    init: Seq<Seq<u8>>,
    frags: Seq<FragmentAtoms>,
    chunks: Seq<Seq<u8>>,
)
    requires
        well_formed_stream(init, frags),
        concat_all(chunks) == stream_bytes(init, frags),
    ensures
        spec_feed_all(FramerState::initial(), chunks).1 == (Emitted {
            header: if frags.len() > 0 {
                Some(concat_all(init))
            } else {
                None
            },
            fragments: fragment_bytes(frags),
        }),
{
    lemma_feed_chunks(FramerState::initial(), chunks);
    lemma_well_formed_stream(init, frags);
}

} // verus!
