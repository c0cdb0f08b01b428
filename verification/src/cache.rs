//! The replay cache of one stream.
//!
//! The cache keeps the most recent fragments, in broadcast order, within a
//! bound on their total size. A viewer who joins late is served a snapshot that
//! starts at a fragment boundary.

use crate::buffers::frozen;
use crate::framer::is_moof;
use bytes::Bytes;
use std::collections::VecDeque;
use vstd::prelude::*;

verus! {

/// Bound on the total size of the cached fragments: 8 MiB.
pub const MAX_CACHE_BYTES: usize = 8 * 1024 * 1024;

/// Total number of bytes in the entries.
pub open spec fn total_bytes(entries: Seq<Seq<u8>>) -> nat
    decreases entries.len(),
{
    if entries.len() == 0 {
        0
    } else {
        total_bytes(entries.drop_last()) + entries.last().len()
    }
}

/// The entries that remain when the oldest are dropped, one by one, until the
/// total size is within `cap`.
pub open spec fn evict(entries: Seq<Seq<u8>>, cap: nat) -> Seq<Seq<u8>>
    decreases entries.len(),
{
    if entries.len() == 0 || total_bytes(entries) <= cap {
        entries
    } else {
        evict(entries.drop_first(), cap)
    }
}

/// Index of the first entry that starts with a `moof` atom, or the number of
/// entries when none does.
pub open spec fn first_moof(entries: Seq<Seq<u8>>) -> int
    decreases entries.len(),
{
    if entries.len() == 0 {
        0
    } else if is_moof(entries[0]) {
        0
    } else {
        1 + first_moof(entries.drop_first())
    }
}

/// The entries from the first one that starts with a `moof` atom; empty when
/// none does.
pub open spec fn spec_snapshot(entries: Seq<Seq<u8>>) -> Seq<Seq<u8>> {
    entries.skip(first_moof(entries))
}

/// The contents of a sequence of frozen buffers.
pub open spec fn contents(items: Seq<Bytes>) -> Seq<Seq<u8>> {
    items.map_values(|b: Bytes| frozen(b))
}

/// The total size of the entries is the size of the first plus that of the rest.
pub proof fn lemma_total_front(entries: Seq<Seq<u8>>)
    requires
        entries.len() > 0,
    ensures
        total_bytes(entries) == entries[0].len() + total_bytes(entries.drop_first()),
    decreases entries.len(),
{
    if entries.len() == 1 {
        assert(entries.drop_last() =~= Seq::<Seq<u8>>::empty());
        assert(entries.drop_first() =~= Seq::<Seq<u8>>::empty());
    } else {
        lemma_total_front(entries.drop_last());
        assert(entries.drop_last().drop_first() =~= entries.drop_first().drop_last());
    }
}

/// Eviction never leaves more than `cap` bytes.
pub proof fn lemma_evict_bound(entries: Seq<Seq<u8>>, cap: nat)
    ensures
        total_bytes(evict(entries, cap)) <= cap,
    decreases entries.len(),
{
    if entries.len() > 0 && total_bytes(entries) > cap {
        lemma_evict_bound(entries.drop_first(), cap);
    }
}

/// `first_moof` is within bounds, no entry before it starts with a `moof`, and
/// the entry at it, if there is one, does.
pub proof fn lemma_first_moof(entries: Seq<Seq<u8>>)
    ensures
        0 <= first_moof(entries) <= entries.len(),
        forall|i: int| 0 <= i < first_moof(entries) ==> !is_moof(entries[i]),
        first_moof(entries) < entries.len() ==> is_moof(entries[first_moof(entries)]),
    decreases entries.len(),
{
    if entries.len() > 0 && !is_moof(entries[0]) {
        let t = entries.drop_first();
        lemma_first_moof(t);
        assert forall|i: int| 0 <= i < first_moof(entries) implies !is_moof(entries[i]) by {
            if i > 0 {
                assert(entries[i] == t[i - 1]);
            }
        }
    }
}

proof fn lemma_first_moof_is(entries: Seq<Seq<u8>>, at: int)
    requires
        0 <= at <= entries.len(),
        forall|i: int| 0 <= i < at ==> !is_moof(entries[i]),
        at < entries.len() ==> is_moof(entries[at]),
    ensures
        first_moof(entries) == at,
{
    lemma_first_moof(entries);
    let f = first_moof(entries);
    if f < at {
        assert(!is_moof(entries[f]));
    } else if at < f {
        assert(!is_moof(entries[at]));
    }
}

/// A snapshot is empty or begins with an entry that starts with a `moof` atom.
pub proof fn lemma_snapshot_boundary(entries: Seq<Seq<u8>>)
    ensures
        spec_snapshot(entries).len() == 0 || is_moof(spec_snapshot(entries)[0]),
{
    lemma_first_moof(entries);
}

/// The recent fragments of one stream, oldest first.
pub struct FragmentCache {
    entries: VecDeque<Bytes>,
    current_size: usize,
}

impl FragmentCache {
    /// The cached fragments, oldest first.
    pub closed spec fn view(&self) -> Seq<Seq<u8>> {
        contents(self.entries@)
    }

    /// The size kept beside the entries is their total size, and it is within the
    /// bound.
    pub closed spec fn wf(&self) -> bool {
        &&& self.current_size == total_bytes(self@)
        &&& self.current_size <= MAX_CACHE_BYTES
    }

    /// A well-formed cache never exceeds the bound.
    pub proof fn lemma_within_bound(&self)
        requires
            self.wf(),
        ensures
            total_bytes(self@) <= MAX_CACHE_BYTES,
    {
    }

    /// An empty cache.
    pub fn new() -> (c: FragmentCache)
        ensures
            c.wf(),
            c@ == Seq::<Seq<u8>>::empty(),
    {
        let c = FragmentCache { entries: VecDeque::new(), current_size: 0 };
        assert(c@ =~= Seq::<Seq<u8>>::empty());
        c
    }

    /// Number of cached fragments.
    pub fn len(&self) -> (n: usize)
        ensures
            n == self@.len(),
    {
        self.entries.len()
    }

    /// Total size of the cached fragments.
    pub fn total_size(&self) -> (n: usize)
        requires
            self.wf(),
        ensures
            n == total_bytes(self@),
            n <= MAX_CACHE_BYTES,
    {
        self.current_size
    }

    /// Appends a fragment, then drops the oldest fragments until the total size
    /// is within the bound. A fragment larger than the bound empties the cache.
    pub fn push(&mut self, chunk: Bytes)
        requires
            old(self).wf(),
        ensures
            final(self).wf(),
            final(self)@ == evict(old(self)@.push(frozen(chunk)), MAX_CACHE_BYTES as nat),
            total_bytes(final(self)@) <= MAX_CACHE_BYTES,
    {
        let ghost goal = old(self)@.push(frozen(chunk));
        let chunk_len: usize = chunk.len();
        let mut size: u128 = self.current_size as u128 + chunk_len as u128;
        self.entries.push_back(chunk);
        proof {
            assert(self@ =~= goal);
            assert(goal.drop_last() =~= old(self)@);
        }
        while size > MAX_CACHE_BYTES as u128
            invariant
                size == total_bytes(self@),
                evict(self@, MAX_CACHE_BYTES as nat) == evict(goal, MAX_CACHE_BYTES as nat),
            decreases self@.len(),
        {
            let ghost before = self@;
            let removed = self.entries.pop_front();
            proof {
                lemma_total_front(before);
                assert(self@ =~= before.drop_first());
            }
            match removed {
                Some(r) => {
                    size = size - r.len() as u128;
                },
                None => {},
            }
        }
        self.current_size = size as usize;
    }

    /// The cached fragments from the first one that starts with a `moof` atom,
    /// for a viewer who joins now. Empty when no cached fragment starts with one.
    pub fn snapshot(&self) -> (r: Vec<Bytes>)
        ensures
            contents(r@) == spec_snapshot(self@),
            r@.len() == 0 || is_moof(contents(r@)[0]),
    {
        let n: usize = self.entries.len();
        let mut start: usize = 0;
        while start < n && !starts_with_moof(&self.entries[start])
            invariant
                n == self.entries@.len(),
                start <= n,
                forall|i: int| 0 <= i < start ==> !is_moof(self@[i]),
            decreases n - start,
        {
            start = start + 1;
        }
        proof {
            lemma_first_moof_is(self@, start as int);
            lemma_snapshot_boundary(self@);
        }
        let mut r: Vec<Bytes> = Vec::new();
        let mut i: usize = start;
        while i < n
            invariant
                n == self.entries@.len(),
                start <= i <= n,
                contents(r@) == self@.subrange(start as int, i as int),
            decreases n - i,
        {
            let ghost before = r@;
            let item = self.entries[i].clone();
            r.push(item);
            i = i + 1;
            assert(contents(r@) =~= contents(before).push(frozen(item)));
            assert(contents(r@) =~= self@.subrange(start as int, i as int));
        }
        assert(self@.subrange(start as int, n as int) =~= self@.skip(start as int));
        r
    }
}

/// Whether a fragment starts with a `moof` atom: whether its bytes 4..8 spell
/// `moof`.
pub fn starts_with_moof(chunk: &Bytes) -> (r: bool)
    ensures
        r == is_moof(frozen(*chunk)),
{
    let b: &[u8] = chunk.as_ref();
    if b.len() < 8 {
        return false;
    }
    let r = b[4] == 0x6d && b[5] == 0x6f && b[6] == 0x6f && b[7] == 0x66;
    proof {
        let t = b@.subrange(4, 8);
        let code = crate::framer::moof_code();
        if r {
            assert(t =~= code);
        } else {
            assert(t[0] == b@[4] && t[1] == b@[5] && t[2] == b@[6] && t[3] == b@[7]);
        }
    }
    r
}

} // verus!
