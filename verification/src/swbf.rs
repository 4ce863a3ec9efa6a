//! The sliding-window Bloom filter's building blocks: sorted bit-index
//! lists, the in-memory active window, and the fixed-size chunks that are
//! evicted into the inactive accumulator.

use crate::encoding::enc_len;
use crate::encoding::felts_ok;
use crate::hashing::hash_varlen;
use crate::hashing::hash_varlen_of;
use crate::Digest;
use crate::FIELD_PRIME;
use vstd::prelude::*;

verus! {

/// Bits in the active window.
pub const WINDOW_SIZE: u64 = 1_048_576;

/// Bits per evicted chunk; divides the window size.
pub const CHUNK_SIZE: u64 = 4096;

/// A strictly increasing sequence: the canonical form of a set of bit
/// indices.
pub open spec fn sorted_strict(s: Seq<u64>) -> bool {
    forall|i: int, j: int| 0 <= i < j < s.len() ==> s[i] < s[j]
}

/// Every index is below the bound.
pub open spec fn bits_below(s: Seq<u64>, bound: u64) -> bool {
    forall|i: int| 0 <= i < s.len() ==> #[trigger] s[i] < bound
}

/// The canonical list with one more set bit.
pub open spec fn insert_sorted_spec(s: Seq<u64>, x: u64) -> Seq<u64>
    decreases s.len(),
{
    if s.len() == 0 {
        seq![x]
    } else if x < s[0] {
        seq![x] + s
    } else if x == s[0] {
        s
    } else {
        seq![s[0]] + insert_sorted_spec(s.subrange(1, s.len() as int), x)
    }
}

/// Inserting keeps the list canonical, adds exactly the new bit, and
/// respects any bound both obey.
pub proof fn lemma_insert_sorted_props(s: Seq<u64>, x: u64)
    requires
        sorted_strict(s),
    ensures
        sorted_strict(insert_sorted_spec(s, x)),
        insert_sorted_spec(s, x).to_set() == s.to_set().insert(x),
        insert_sorted_spec(s, x).contains(x),
        forall|y: u64| s.contains(y) ==> insert_sorted_spec(s, x).contains(y),
        forall|y: u64| insert_sorted_spec(s, x).contains(y) ==> (y == x || s.contains(y)),
        s.contains(x) ==> insert_sorted_spec(s, x) == s,
        !s.contains(x) ==> insert_sorted_spec(s, x).len() == s.len() + 1,
    decreases s.len(),
{
    let r = insert_sorted_spec(s, x);
    if s.len() == 0 {
        assert(r =~= seq![x]);
        assert(r.to_set() =~= s.to_set().insert(x)) by {
            assert(r[0] == x);
            assert(r.contains(x));
            assert forall|y: u64| r.to_set().contains(y) implies s.to_set().insert(x).contains(
                y,
            ) by {
                assert(r[0] == x);
            }
        }
    } else if x < s[0] {
        assert(r =~= seq![x] + s);
        assert forall|i: int, j: int| 0 <= i < j < r.len() implies r[i] < r[j] by {
            if i == 0 {
                assert(r[0] == x && r[j] == s[j - 1]);
                assert(x < s[0]);
                if j > 1 {
                    assert(s[0] < s[j - 1]);
                }
            } else {
                assert(r[i] == s[i - 1] && r[j] == s[j - 1]);
            }
        }
        assert(r.to_set() =~= s.to_set().insert(x)) by {
            assert forall|y: u64| r.to_set().contains(y) implies s.to_set().insert(x).contains(
                y,
            ) by {
                let k = choose|k: int| 0 <= k < r.len() && r[k] == y;
                if k > 0 {
                    assert(s[k - 1] == y);
                }
            }
            assert forall|y: u64| s.to_set().insert(x).contains(y) implies r.to_set().contains(
                y,
            ) by {
                if y == x {
                    assert(r[0] == y);
                } else {
                    let k = choose|k: int| 0 <= k < s.len() && s[k] == y;
                    assert(r[k + 1] == y);
                }
            }
        }
        assert(!s.contains(x)) by {
            if s.contains(x) {
                let k = choose|k: int| 0 <= k < s.len() && s[k] == x;
                if k > 0 {
                    assert(s[0] < s[k]);
                }
            }
        }
    } else if x == s[0] {
        assert(r == s);
        assert(s.contains(x)) by {
            assert(s[0] == x);
        }
        assert(r.to_set() =~= s.to_set().insert(x)) by {
            assert(s.to_set().contains(x)) by {
                assert(s[0] == x);
            }
        }
    } else {
        let tail = s.subrange(1, s.len() as int);
        assert(sorted_strict(tail));
        lemma_insert_sorted_props(tail, x);
        let rt = insert_sorted_spec(tail, x);
        assert(r =~= seq![s[0]] + rt);
        // Every element of the recursive result is x or from the tail, so
        // it exceeds s[0].
        assert forall|i: int, j: int| 0 <= i < j < r.len() implies r[i] < r[j] by {
            if i == 0 {
                assert(r[j] == rt[j - 1]);
                assert(rt.contains(rt[j - 1]));
                if rt[j - 1] == x {
                    assert(s[0] < x);
                } else {
                    assert(tail.contains(rt[j - 1]));
                    let k = choose|k: int| 0 <= k < tail.len() && tail[k] == rt[j - 1];
                    assert(s[k + 1] == rt[j - 1]);
                    assert(s[0] < s[k + 1]);
                }
            } else {
                assert(r[i] == rt[i - 1] && r[j] == rt[j - 1]);
            }
        }
        assert(r.to_set() =~= s.to_set().insert(x)) by {
            assert forall|y: u64| r.to_set().contains(y) implies s.to_set().insert(x).contains(
                y,
            ) by {
                let k = choose|k: int| 0 <= k < r.len() && r[k] == y;
                if k == 0 {
                    assert(s[0] == y);
                } else {
                    assert(rt.contains(y));
                    assert(rt.to_set().contains(y));
                    if y != x {
                        assert(tail.to_set().contains(y));
                        let m = choose|m: int| 0 <= m < tail.len() && tail[m] == y;
                        assert(s[m + 1] == y);
                    }
                }
            }
            assert forall|y: u64| s.to_set().insert(x).contains(y) implies r.to_set().contains(
                y,
            ) by {
                if y == x {
                    assert(rt.contains(x));
                    let k = choose|k: int| 0 <= k < rt.len() && rt[k] == x;
                    assert(r[k + 1] == x);
                } else {
                    let k = choose|k: int| 0 <= k < s.len() && s[k] == y;
                    if k == 0 {
                        assert(r[0] == y);
                    } else {
                        assert(tail[k - 1] == y);
                        assert(tail.contains(y));
                        assert(rt.contains(y));
                        let m = choose|m: int| 0 <= m < rt.len() && rt[m] == y;
                        assert(r[m + 1] == y);
                    }
                }
            }
        }
        if s.contains(x) {
            assert(tail.contains(x)) by {
                let k = choose|k: int| 0 <= k < s.len() && s[k] == x;
                assert(k > 0) by {
                    assert(s[0] < x);
                }
                assert(tail[k - 1] == x);
            }
            assert(r =~= s) by {
                assert(rt == tail);
            }
        }
        if !s.contains(x) {
            assert(!tail.contains(x)) by {
                if tail.contains(x) {
                    let k = choose|k: int| 0 <= k < tail.len() && tail[k] == x;
                    assert(s[k + 1] == x);
                }
            }
        }
    }
    assert(r.contains(x)) by {
        assert(r.to_set().contains(x));
    }
    assert forall|y: u64| s.contains(y) implies r.contains(y) by {
        assert(s.to_set().contains(y));
        assert(r.to_set().contains(y));
    }
    assert forall|y: u64| r.contains(y) implies (y == x || s.contains(y)) by {
        assert(r.to_set().contains(y));
        if y != x {
            assert(s.to_set().contains(y));
        }
    }
}

/// Inserting a bit below a bound keeps all bits below it.
pub proof fn lemma_insert_sorted_bound(s: Seq<u64>, x: u64, bound: u64)
    requires
        sorted_strict(s),
        bits_below(s, bound),
        x < bound,
    ensures
        bits_below(insert_sorted_spec(s, x), bound),
{
    lemma_insert_sorted_props(s, x);
    let r = insert_sorted_spec(s, x);
    assert forall|i: int| 0 <= i < r.len() implies #[trigger] r[i] < bound by {
        assert(r.contains(r[i]));
        if r[i] != x {
            assert(s.contains(r[i]));
            let k = choose|k: int| 0 <= k < s.len() && s[k] == r[i];
        }
    }
}

/// Insert a bit into a canonical sorted list.
pub fn insert_sorted(v: &mut Vec<u64>, x: u64)
    requires
        sorted_strict(old(v)@),
    ensures
        final (v)@ == insert_sorted_spec(old(v)@, x),
{
    let mut i: usize = 0;
    while i < v.len() && v[i] < x
        invariant
            0 <= i <= v@.len(),
            sorted_strict(v@),
            forall|j: int| 0 <= j < i ==> #[trigger] v@[j] < x,
            v@ == old(v)@,
        decreases v@.len() - i,
    {
        i = i + 1;
    }
    if i < v.len() && v[i] == x {
        proof {
            lemma_insert_split(v@, x, i as int);
        }
        return ;
    }
    v.insert(i, x);
    proof {
        lemma_insert_split(old(v)@, x, i as int);
        assert(v@ =~= old(v)@.subrange(0, i as int) + seq![x] + old(v)@.subrange(
            i as int,
            old(v)@.len() as int,
        ));
    }
}

/// Where the new bit lands in the canonical order.
proof fn lemma_insert_split(s: Seq<u64>, x: u64, i: int)
    requires
        sorted_strict(s),
        0 <= i <= s.len(),
        forall|j: int| 0 <= j < i ==> #[trigger] s[j] < x,
        i < s.len() ==> s[i] >= x,
    ensures
        i < s.len() && s[i] == x ==> insert_sorted_spec(s, x) == s,
        !(i < s.len() && s[i] == x) ==> insert_sorted_spec(s, x) == s.subrange(0, i) + seq![x]
            + s.subrange(i, s.len() as int),
    decreases s.len(),
{
    if s.len() == 0 {
        assert(insert_sorted_spec(s, x) =~= s.subrange(0, i) + seq![x] + s.subrange(
            i,
            s.len() as int,
        ));
    } else if i == 0 {
        if s[0] == x {
        } else {
            assert(x < s[0]);
            assert(insert_sorted_spec(s, x) =~= s.subrange(0, 0) + seq![x] + s.subrange(
                0,
                s.len() as int,
            ));
        }
    } else {
        let tail = s.subrange(1, s.len() as int);
        assert(s[0] < x);
        assert(sorted_strict(tail));
        lemma_insert_split(tail, x, i - 1);
        if i < s.len() && s[i] == x {
            assert(tail[i - 1] == x);
            assert(insert_sorted_spec(s, x) =~= seq![s[0]] + insert_sorted_spec(tail, x));
            assert(insert_sorted_spec(tail, x) == tail);
            assert(seq![s[0]] + tail =~= s);
        } else {
            assert(insert_sorted_spec(tail, x) == tail.subrange(0, i - 1) + seq![x] + tail.subrange(
                i - 1,
                tail.len() as int,
            ));
            assert(insert_sorted_spec(s, x) =~= seq![s[0]] + insert_sorted_spec(tail, x));
            assert(tail.subrange(0, i - 1) =~= s.subrange(1, i));
            assert(tail.subrange(i - 1, tail.len() as int) =~= s.subrange(i, s.len() as int));
            assert(seq![s[0]] + (s.subrange(1, i) + seq![x] + s.subrange(i, s.len() as int)) =~= s
                .subrange(0, i) + seq![x] + s.subrange(i, s.len() as int));
        }
    }
}

/// The bits of an evicted chunk: those below the chunk size.
pub open spec fn evicted_bits(s: Seq<u64>) -> Seq<u64>
    decreases s.len(),
{
    if s.len() == 0 {
        Seq::empty()
    } else if s.last() < CHUNK_SIZE {
        evicted_bits(s.drop_last()).push(s.last())
    } else {
        evicted_bits(s.drop_last())
    }
}

/// The remaining window bits after a slide, shifted down by one chunk.
pub open spec fn shifted_bits(s: Seq<u64>) -> Seq<u64>
    decreases s.len(),
{
    if s.len() == 0 {
        Seq::empty()
    } else if s.last() >= CHUNK_SIZE {
        shifted_bits(s.drop_last()).push((s.last() - CHUNK_SIZE) as u64)
    } else {
        shifted_bits(s.drop_last())
    }
}

/// A fixed-size chunk of Bloom-filter bits that slid out of the window,
/// stored as the canonical list of its set bit positions.
#[derive(Clone, Debug, PartialEq, Eq)]
pub struct Chunk {
    pub bits: Vec<u64>,
}

/// The encoding a chunk is hashed through.
pub open spec fn chunk_enc(bits: Seq<u64>) -> Seq<u64> {
    enc_len(bits.len() as int) + bits
}

/// The digest an evicted chunk is committed under.
pub open spec fn chunk_digest_of(bits: Seq<u64>) -> Seq<u64> {
    hash_varlen_of(chunk_enc(bits))
}

impl Chunk {
    pub open spec fn wf(self) -> bool {
        sorted_strict(self.bits@) && bits_below(self.bits@, CHUNK_SIZE) && self.bits@.len()
            <= CHUNK_SIZE
    }

    /// Only the bit bound is needed to hash or read a chunk that came off
    /// the wire.
    pub open spec fn bounds_ok(self) -> bool {
        bits_below(self.bits@, CHUNK_SIZE) && self.bits@.len() <= CHUNK_SIZE
    }

    pub fn new_empty() -> (r: Chunk)
        ensures
            r.bits@ == Seq::<u64>::empty(),
            r.wf(),
    {
        Chunk { bits: Vec::new() }
    }

    /// Whether the chunk can be hashed and read: its bits are in range.
    pub fn check_bounds(&self) -> (r: bool)
        ensures
            r == self.bounds_ok(),
    {
        if self.bits.len() > CHUNK_SIZE as usize {
            return false;
        }
        let mut i: usize = 0;
        while i < self.bits.len()
            invariant
                0 <= i <= self.bits@.len(),
                forall|j: int| 0 <= j < i ==> #[trigger] self.bits@[j] < CHUNK_SIZE,
            decreases self.bits@.len() - i,
        {
            if self.bits[i] >= CHUNK_SIZE {
                return false;
            }
            i = i + 1;
        }
        true
    }

    /// Whether the bit at a chunk-relative position is set.
    pub fn contains(&self, rel: u64) -> (r: bool)
        ensures
            r == self.bits@.contains(rel),
    {
        let mut i: usize = 0;
        while i < self.bits.len()
            invariant
                0 <= i <= self.bits@.len(),
                forall|j: int| 0 <= j < i ==> #[trigger] self.bits@[j] != rel,
            decreases self.bits@.len() - i,
        {
            if self.bits[i] == rel {
                return true;
            }
            i = i + 1;
        }
        false
    }

    /// The digest the chunk is committed under in the inactive accumulator.
    pub fn digest(&self) -> (r: Digest)
        requires
            self.bounds_ok(),
        ensures
            r@ == chunk_digest_of(self.bits@),
            r.wf(),
    {
        let mut enc: Vec<u64> = Vec::new();
        crate::encoding::push_len(&mut enc, self.bits.len());
        crate::encoding::push_felts(&mut enc, &self.bits);
        proof {
            assert(enc@ =~= chunk_enc(self.bits@));
            assert forall|i: int| 0 <= i < enc@.len() implies #[trigger] enc@[i] < FIELD_PRIME by {
                if i == 0 {
                    assert(enc@[0] == self.bits@.len() as u64);
                } else {
                    assert(enc@[i] == self.bits@[i - 1]);
                    assert(self.bits@[i - 1] < CHUNK_SIZE);
                }
            }
        }
        hash_varlen(&enc)
    }
}

/// The in-memory active window: the canonical list of window-relative set
/// bit positions.
#[derive(Clone, Debug, PartialEq, Eq)]
pub struct ActiveWindow {
    pub bits: Vec<u64>,
}

impl ActiveWindow {
    pub open spec fn wf(self) -> bool {
        sorted_strict(self.bits@) && bits_below(self.bits@, WINDOW_SIZE)
    }

    pub fn new() -> (r: ActiveWindow)
        ensures
            r.bits@ == Seq::<u64>::empty(),
            r.wf(),
    {
        ActiveWindow { bits: Vec::new() }
    }

    /// Whether the window-relative bit is set.
    pub fn contains(&self, rel: u64) -> (r: bool)
        ensures
            r == self.bits@.contains(rel),
    {
        let mut i: usize = 0;
        while i < self.bits.len()
            invariant
                0 <= i <= self.bits@.len(),
                forall|j: int| 0 <= j < i ==> #[trigger] self.bits@[j] != rel,
            decreases self.bits@.len() - i,
    {
            if self.bits[i] == rel {
                return true;
            }
            i = i + 1;
        }
        false
    }

    /// Set a window-relative bit.
    pub fn set_bit(&mut self, rel: u64)
        requires
            old(self).wf(),
            rel < WINDOW_SIZE,
        ensures
            final (self).bits@ == insert_sorted_spec(old(self).bits@, rel),
            final (self).wf(),
    {
        insert_sorted(&mut self.bits, rel);
        proof {
            lemma_insert_sorted_props(old(self).bits@, rel);
            lemma_insert_sorted_bound(old(self).bits@, rel, WINDOW_SIZE);
        }
    }

    /// Slide the window by one chunk: hand back the lowest chunk's bits and
    /// shift the rest down.
    pub fn slide(&mut self) -> (chunk: Chunk)
        requires
            old(self).wf(),
        ensures
            chunk.bits@ == evicted_bits(old(self).bits@),
            chunk.wf(),
            final (self).bits@ == shifted_bits(old(self).bits@),
            final (self).wf(),
    {
        let mut low: Vec<u64> = Vec::new();
        let mut high: Vec<u64> = Vec::new();
        let mut i: usize = 0;
        while i < self.bits.len()
            invariant
                0 <= i <= self.bits@.len(),
                old(self).wf(),
                self.bits@ == old(self).bits@,
                low@ == evicted_bits(self.bits@.subrange(0, i as int)),
                high@ == shifted_bits(self.bits@.subrange(0, i as int)),
            decreases self.bits@.len() - i,
        {
            let ghost pre = self.bits@.subrange(0, i as int);
            let b = self.bits[i];
            if b < CHUNK_SIZE {
                low.push(b);
            } else {
                high.push(b - CHUNK_SIZE);
            }
            proof {
                assert(self.bits@.subrange(0, i + 1) =~= pre.push(b));
                assert(pre.push(b).drop_last() =~= pre);
                assert(pre.push(b).last() == b);
            }
            i = i + 1;
        }
        proof {
            assert(self.bits@.subrange(0, self.bits@.len() as int) =~= self.bits@);
        }
        self.bits = high;
        proof {
            lemma_filtered_sorted(old(self).bits@);
        }
        Chunk { bits: low }
    }
}

/// Eviction and shifting keep canonical order and bounds, and an evicted
/// chunk holds at most a chunk's worth of bits.
pub proof fn lemma_filtered_sorted(s: Seq<u64>)
    requires
        sorted_strict(s),
        bits_below(s, WINDOW_SIZE),
    ensures
        sorted_strict(evicted_bits(s)),
        bits_below(evicted_bits(s), CHUNK_SIZE),
        evicted_bits(s).len() <= CHUNK_SIZE,
        sorted_strict(shifted_bits(s)),
        bits_below(shifted_bits(s), WINDOW_SIZE),
{
    lemma_split_facts(s);
    lemma_sorted_below_len(evicted_bits(s), CHUNK_SIZE);
}

/// Every evicted bit is a low bit of the window; every shifted bit is a
/// high bit moved down one chunk; both keep the strict order.
proof fn lemma_split_facts(s: Seq<u64>)
    requires
        sorted_strict(s),
        bits_below(s, WINDOW_SIZE),
    ensures
        sorted_strict(evicted_bits(s)),
        bits_below(evicted_bits(s), CHUNK_SIZE),
        sorted_strict(shifted_bits(s)),
        bits_below(shifted_bits(s), WINDOW_SIZE),
        forall|i: int|
            0 <= i < evicted_bits(s).len() ==> s.contains(#[trigger] evicted_bits(s)[i]),
        forall|i: int|
            0 <= i < shifted_bits(s).len() ==> s.contains(
                (#[trigger] shifted_bits(s)[i] + CHUNK_SIZE) as u64,
            ),
    decreases s.len(),
{
    if s.len() > 0 {
        let head = s.drop_last();
        let b = s.last();
        assert(sorted_strict(head));
        assert(bits_below(head, WINDOW_SIZE));
        lemma_split_facts(head);
        assert forall|y: u64| head.contains(y) implies s.contains(y) by {
            let k = choose|k: int| 0 <= k < head.len() && head[k] == y;
            assert(s[k] == y);
        }
        assert(s.contains(b)) by {
            assert(s[s.len() - 1] == b);
        }
        // Each element of either split of the head is some head entry, so
        // it is strictly below the appended last bit.
        if b < CHUNK_SIZE {
            let e = evicted_bits(s);
            assert(e == evicted_bits(head).push(b));
            assert forall|i: int, j: int| 0 <= i < j < e.len() implies e[i] < e[j] by {
                if j == e.len() - 1 {
                    assert(e[i] == evicted_bits(head)[i]);
                    assert(head.contains(e[i]));
                    let k = choose|k: int| 0 <= k < head.len() && head[k] == e[i];
                    assert(s[k] < s[s.len() - 1]);
                }
            }
            assert(shifted_bits(s) == shifted_bits(head));
        } else {
            let h = shifted_bits(s);
            assert(h == shifted_bits(head).push((b - CHUNK_SIZE) as u64));
            assert forall|i: int, j: int| 0 <= i < j < h.len() implies h[i] < h[j] by {
                if j == h.len() - 1 {
                    assert(h[i] == shifted_bits(head)[i]);
                    assert(head.contains((h[i] + CHUNK_SIZE) as u64));
                    let k = choose|k: int| 0 <= k < head.len() && head[k] == h[i] + CHUNK_SIZE;
                    assert(s[k] < s[s.len() - 1]);
                }
            }
            assert(evicted_bits(s) == evicted_bits(head));
        }
    }
}

/// The active window cannot hold more set bits than it has positions.
pub proof fn lemma_active_window_len(s: Seq<u64>)
    requires
        sorted_strict(s),
        bits_below(s, WINDOW_SIZE),
    ensures
        s.len() <= WINDOW_SIZE,
{
    lemma_sorted_below_len(s, WINDOW_SIZE);
}

/// A strictly sorted list of values below a bound has at most that many
/// entries.
proof fn lemma_sorted_below_len(s: Seq<u64>, bound: u64)
    requires
        sorted_strict(s),
        bits_below(s, bound),
    ensures
        s.len() <= bound,
    decreases s.len(),
{
    if s.len() > 0 {
        // Each earlier element is strictly below the last, which is below
        // the bound; by induction over the prefix with bound s.last().
        let head = s.drop_last();
        assert(sorted_strict(head));
        assert(s.last() < bound);
        assert forall|i: int| 0 <= i < head.len() implies #[trigger] head[i] < s.last() by {
            assert(s[i] < s[s.len() - 1]);
        }
        if s.last() == 0 {
            assert(head.len() == 0) by {
                if head.len() > 0 {
                    assert(head[0] < 0);
                }
            }
        } else {
            lemma_sorted_below_len(head, s.last());
        }
    }
}

} // verus!
