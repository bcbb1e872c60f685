//! The sample ring: fixed capacity (a power of two), monotonically growing
//! read and write indices, and a backing store of twice the capacity whose
//! second half mirrors the first, so that every run of up to `capacity`
//! samples that starts at a reduced index is contiguous in the store.

use vstd::prelude::*;
use vstd::arithmetic::div_mod::{
    lemma_fundamental_div_mod, lemma_fundamental_div_mod_converse, lemma_mod_bound,
};
use crate::Sample;

verus! {

/// Is `c` a power of two?
pub open spec fn is_pow2(c: usize) -> bool {
    c > 0 && c & ((c - 1) as usize) == 0
}

/// Is `c` a power of two? Rings are built only with such a capacity.
pub fn is_power_of_two(c: usize) -> (r: bool)
    ensures
        r == is_pow2(c),
{
    c > 0 && c & (c - 1) == 0
}

/// Why a ring could not be built.
#[derive(Debug, Clone, Copy, PartialEq, Eq)]
pub enum RingError {
    /// The capacity is not a power of two.
    CapacityNotPowerOfTwo,
    /// The mirrored store of twice the capacity cannot be addressed.
    CapacityTooLarge,
}

/// Single-producer/single-consumer sample ring with branch-free wrap-around.
pub struct MagicRingBuffer {
    storage: Vec<Sample>,
    capacity: usize,
    read_idx: usize,
    write_idx: usize,
}

/// `(r + k) % c` computed from the reduced `r`.
proof fn lemma_mod_step(r: int, k: int, c: int)
    requires
        r >= 0,
        k >= 0,
        c > 0,
    ensures
        (r + k) % c == ((r % c) + k) % c,
{
    lemma_fundamental_div_mod(r, c);
    lemma_fundamental_div_mod(r % c + k, c);
    let q = r / c + (r % c + k) / c;
    assert(r + k == q * c + (r % c + k) % c) by (nonlinear_arith)
        requires
            r == c * (r / c) + r % c,
            r % c + k == c * ((r % c + k) / c) + (r % c + k) % c,
            q == r / c + (r % c + k) / c,
    ;
    lemma_fundamental_div_mod_converse(r + k, c, q, (r % c + k) % c);
}

/// Two indices less than `c` apart never share a slot.
proof fn lemma_mod_distinct(a: int, b: int, c: int)
    requires
        0 <= b < a,
        a - b < c,
    ensures
        a % c != b % c,
{
    lemma_fundamental_div_mod(a, c);
    lemma_fundamental_div_mod(b, c);
    if a % c == b % c {
        let d = a / c - b / c;
        assert(a - b == c * d) by (nonlinear_arith)
            requires
                a == c * (a / c) + a % c,
                b == c * (b / c) + b % c,
                a % c == b % c,
                d == a / c - b / c,
        ;
        assert(false) by (nonlinear_arith)
            requires
                a - b == c * d,
                0 < a - b < c,
                c > 0,
        ;
    }
}

/// An offset below `2 * c` reduced by `c`.
proof fn lemma_mod_fold(x: int, c: int)
    requires
        0 <= x < 2 * c,
    ensures
        x % c == if x < c { x } else { x - c },
{
    if x < c {
        lemma_fundamental_div_mod_converse(x, c, 0, x);
    } else {
        lemma_fundamental_div_mod_converse(x, c, 1, x - c);
    }
}

impl MagicRingBuffer {
    /// The number of samples the ring holds at most.
    pub closed spec fn cap(&self) -> nat {
        self.capacity as nat
    }

    /// The read index `R`: samples consumed so far.
    pub closed spec fn read_pos(&self) -> nat {
        self.read_idx as nat
    }

    /// The write index `W`: samples committed so far.
    pub closed spec fn write_pos(&self) -> nat {
        self.write_idx as nat
    }

    /// The sample stored for logical index `i`.
    pub closed spec fn slot(&self, i: int) -> Sample {
        self.storage@[i % (self.capacity as int)]
    }

    /// The committed samples that have not been consumed, oldest first.
    pub closed spec fn unread(&self) -> Seq<Sample> {
        Seq::new((self.write_idx - self.read_idx) as nat, |k: int| self.slot(self.read_idx + k))
    }

    /// Room left for writing: `C - (W - R)`.
    pub open spec fn room(&self) -> int {
        self.cap() - (self.write_pos() - self.read_pos())
    }

    pub closed spec fn wf(&self) -> bool {
        &&& is_pow2(self.capacity)
        &&& self.capacity <= usize::MAX / 2
        &&& self.storage@.len() == 2 * self.capacity
        &&& self.read_idx <= self.write_idx
        &&& self.write_idx - self.read_idx <= self.capacity
        &&& forall|j: int|
            0 <= j < self.capacity ==> #[trigger] self.storage@[j + self.capacity]
                == self.storage@[j]
    }

    /// Builds an empty ring of `capacity` samples.
    pub fn new(capacity: usize) -> (r: Result<Self, RingError>)
        ensures
            r is Ok <==> (is_pow2(capacity) && capacity <= usize::MAX / 2),
            r matches Ok(b) ==> {
                &&& b.wf()
                &&& b.cap() == capacity
                &&& b.read_pos() == 0
                &&& b.write_pos() == 0
                &&& b.unread() == Seq::<Sample>::empty()
            },
            r == Err::<Self, RingError>(RingError::CapacityNotPowerOfTwo) <==> !is_pow2(capacity),
            r == Err::<Self, RingError>(RingError::CapacityTooLarge) <==> (is_pow2(capacity)
                && capacity > usize::MAX / 2),
    {
        if !is_power_of_two(capacity) {
            return Err(RingError::CapacityNotPowerOfTwo);
        }
        if capacity > usize::MAX / 2 {
            return Err(RingError::CapacityTooLarge);
        }
        let len: usize = 2 * capacity;
        let mut storage: Vec<Sample> = Vec::new();
        let mut i: usize = 0;
        while i < len
            invariant
                i <= len,
                storage@ == Seq::new(i as nat, |_k: int| 0u32),
            decreases len - i,
        {
            storage.push(0);
            i = i + 1;
        }
        let b = MagicRingBuffer { storage, capacity, read_idx: 0, write_idx: 0 };
        assert(b.unread() =~= Seq::<Sample>::empty());
        Ok(b)
    }

    /// Copies `samples` into the free region that follows the committed
    /// ones, without publishing them; `false` (and nothing written) when the
    /// room left is smaller than `samples.len()`. Unread samples are never
    /// touched.
    pub fn write_slice(&mut self, samples: &[Sample]) -> (r: bool)
        requires
            old(self).wf(),
        ensures
            final(self).wf(),
            r == (samples@.len() <= old(self).room()),
            final(self).cap() == old(self).cap(),
            final(self).read_pos() == old(self).read_pos(),
            final(self).write_pos() == old(self).write_pos(),
            final(self).unread() == old(self).unread(),
            r ==> forall|k: int|
                0 <= k < samples@.len() ==> final(self).slot(old(self).write_pos() + k)
                    == #[trigger] samples@[k],
            !r ==> *final(self) == *old(self),
    {
        let len = samples.len();
        if self.capacity - (self.write_idx - self.read_idx) < len {
            return false;
        }
        let c = self.capacity;
        let w = self.write_idx;
        let o = w % c;
        let mut k: usize = 0;
        while k < len
            invariant
                self.wf(),
                k <= len,
                len == samples@.len(),
                c == self.capacity,
                w == self.write_idx,
                o == w % c,
                self.capacity == old(self).capacity,
                self.read_idx == old(self).read_idx,
                self.write_idx == old(self).write_idx,
                (self.write_idx - self.read_idx) + len <= self.capacity,
                forall|j: int| 0 <= j < k ==> self.slot(w + j) == #[trigger] samples@[j],
                forall|i: int|
                    self.read_idx <= i < self.write_idx ==> #[trigger] self.slot(i) == old(
                        self,
                    ).slot(i),
            decreases len - k,
        {
            proof {
                lemma_mod_bound(w as int, c as int);
                lemma_mod_step(w as int, k as int, c as int);
            }
            let p = (o + k) % c;
            let v = samples[k];
            let ghost prev = *self;
            self.storage.set(p, v);
            self.storage.set(p + c, v);
            proof {
                assert forall|j: int| 0 <= j < k + 1 implies self.slot(w + j) == #[trigger] samples@[j] by {
                    lemma_mod_bound(w + j, c as int);
                    if j < k {
                        lemma_mod_distinct(w + k, w + j, c as int);
                        assert(prev.slot(w + j) == samples@[j]);
                    }
                }
                assert forall|i: int|
                    self.read_idx <= i < self.write_idx implies #[trigger] self.slot(i) == old(self).slot(i) by {
                    lemma_mod_distinct(w + k, i, c as int);
                    lemma_mod_bound(i, c as int);
                    assert(prev.slot(i) == old(self).slot(i));
                }
            }
            k = k + 1;
        }
        proof {
            assert(self.unread() =~= old(self).unread());
        }
        true
    }

    /// Publishes the next `len` written samples: `W` advances by `len`.
    pub fn commit_write(&mut self, len: usize)
        requires
            old(self).wf(),
            len <= old(self).room(),
            old(self).write_pos() + len <= usize::MAX,
        ensures
            final(self).wf(),
            final(self).cap() == old(self).cap(),
            final(self).read_pos() == old(self).read_pos(),
            final(self).write_pos() == old(self).write_pos() + len,
            final(self).unread() == old(self).unread() + Seq::new(
                len as nat,
                |k: int| old(self).slot(old(self).write_pos() + k),
            ),
            forall|i: int| #[trigger] final(self).slot(i) == old(self).slot(i),
    {
        self.write_idx = self.write_idx + len;
        proof {
            assert(self.unread() =~= old(self).unread() + Seq::new(
                len as nat,
                |k: int| old(self).slot(old(self).write_pos() + k),
            ));
        }
    }

    /// All committed, unconsumed samples, oldest first, as one contiguous
    /// view into the store (empty when nothing is buffered).
    pub fn read_slice(&self) -> (r: &[Sample])
        requires
            self.wf(),
        ensures
            r@ == self.unread(),
    {
        let c = self.capacity;
        let o = self.read_idx % c;
        proof {
            lemma_mod_bound(self.read_idx as int, c as int);
        }
        let available = self.write_idx - self.read_idx;
        let r = vstd::slice::slice_subrange(self.storage.as_slice(), o, o + available);
        proof {
            assert forall|k: int| 0 <= k < available implies #[trigger] r@[k] == self.unread()[k] by {
                lemma_mod_step(self.read_idx as int, k, c as int);
                lemma_mod_fold(o + k, c as int);
                if o + k >= c {
                    assert(self.storage@[(o + k - c) + c] == self.storage@[o + k - c]);
                }
            }
            assert(r@ =~= self.unread());
        }
        r
    }

    /// Releases the `len` oldest unread samples: `R` advances by `len`.
    pub fn consume(&mut self, len: usize)
        requires
            old(self).wf(),
            len <= old(self).write_pos() - old(self).read_pos(),
        ensures
            final(self).wf(),
            final(self).cap() == old(self).cap(),
            final(self).write_pos() == old(self).write_pos(),
            final(self).read_pos() == old(self).read_pos() + len,
            final(self).unread() == old(self).unread().subrange(
                len as int,
                old(self).unread().len() as int,
            ),
            forall|i: int| #[trigger] final(self).slot(i) == old(self).slot(i),
    {
        self.read_idx = self.read_idx + len;
        proof {
            assert(self.unread() =~= old(self).unread().subrange(
                len as int,
                old(self).unread().len() as int,
            ));
        }
    }

    /// The capacity `C`.
    pub fn capacity(&self) -> (r: usize)
        ensures
            r == self.cap(),
    {
        self.capacity
    }

    /// The number of unread samples, `W - R`.
    pub fn available(&self) -> (r: usize)
        requires
            self.wf(),
        ensures
            r == self.unread().len(),
            r == self.write_pos() - self.read_pos(),
    {
        self.write_idx - self.read_idx
    }

    /// The read index `R`.
    pub fn read_index(&self) -> (r: usize)
        ensures
            r == self.read_pos(),
    {
        self.read_idx
    }

    /// The write index `W`.
    pub fn write_index(&self) -> (r: usize)
        ensures
            r == self.write_pos(),
    {
        self.write_idx
    }
}

/// In every reachable state the ring holds between none and `C` unread
/// samples: `0 <= W - R <= C`, and the room left is `C - (W - R)`.
pub proof fn lemma_ring_capacity(b: MagicRingBuffer)
    requires
        b.wf(),
    ensures
        b.read_pos() <= b.write_pos(),
        b.write_pos() - b.read_pos() <= b.cap(),
        b.unread().len() == b.write_pos() - b.read_pos(),
        0 <= b.room() <= b.cap(),
{
}

} // verus!
