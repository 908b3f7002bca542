//! A fixed-capacity circular (ring) buffer over a fixed region of memory.
//!
//! The buffer never allocates after construction: it is handed a region of
//! slots up front, and its capacity is the length of that region for the rest
//! of its life.  Elements are pushed at the tail and popped at the head in
//! strict FIFO order; both indices wrap around the end of the region.  A full
//! buffer rejects pushes (no overwrite-oldest policy), and an empty buffer
//! reports pops as absent rather than failing.

use vstd::prelude::*;

pub mod history;

verus! {

/// The recoverable condition reported by [`Cirq::try_push`] when every slot
/// of the region already holds a live element.
#[derive(Debug, PartialEq, Eq, Structural)]
pub enum Error {
    FullBuffer,
}

/// A fixed-capacity FIFO queue stored in a contiguous region whose logical
/// sequence wraps around the end of the region back to its start.
///
/// `head` is the slot of the oldest live element (the next to be popped),
/// `tail` the next slot to be written, and `num_elements` the occupancy;
/// the count alone disambiguates the full and empty states, in both of
/// which `head == tail`.
pub struct Cirq<T: Copy> {
    head: usize,
    tail: usize,
    num_elements: usize,
    buffer: Vec<T>,
}

impl<T: Copy> View for Cirq<T> {
    type V = Seq<T>;

    /// The live elements, oldest first: `num_elements` slots starting at
    /// `head` and proceeding forward modulo the capacity.
    closed spec fn view(&self) -> Seq<T> {
        Seq::new(
            self.num_elements as nat,
            |i: int| self.buffer@[(self.head + i) % (self.buffer@.len() as int)],
        )
    }
}

impl<T: Copy> Cirq<T> {
    /// The fixed number of slots of the underlying region.
    pub closed spec fn capacity(&self) -> nat {
        self.buffer@.len()
    }

    /// Internal consistency: the occupancy is bounded by the capacity, both
    /// indices lie inside the region, and the write index sits exactly
    /// `num_elements` steps (modulo the capacity) past the read index.
    pub closed spec fn wf(&self) -> bool {
        &&& self.num_elements <= self.buffer@.len()
        &&& (self.buffer@.len() == 0 ==> self.head == 0 && self.tail == 0)
        &&& (self.buffer@.len() > 0 ==> {
            &&& self.head < self.buffer@.len()
            &&& self.tail < self.buffer@.len()
            &&& self.tail == (self.head + self.num_elements) % (self.buffer@.len() as int)
        })
    }

    /// The occupancy never exceeds the capacity.
    pub proof fn lemma_len_le_capacity(&self)
        requires
            self.wf(),
        ensures
            self@.len() <= self.capacity(),
    {
    }

    /// Takes over a caller-provided region of slots; its length is the
    /// buffer's capacity from here on.  The slots' existing contents are
    /// kept but treated as stale: the new buffer is empty.
    pub fn from_slice(slice: Vec<T>) -> (r: Self)
        ensures
            r.wf(),
            r@ == Seq::<T>::empty(),
            r.capacity() == slice@.len(),
    {
        let r = Cirq { head: 0, tail: 0, num_elements: 0, buffer: slice };
        proof {
            if r.buffer@.len() > 0 {
                lemma_mod_in_range(0, r.buffer@.len() as int);
            }
            assert(r@ =~= Seq::<T>::empty());
        }
        r
    }

    /// Attempts to insert `elem` at the tail.  Succeeds, appending `elem`
    /// at the young end, exactly when a slot is free; a full buffer
    /// (including one of capacity 0) rejects the push with
    /// [`Error::FullBuffer`] and is left unchanged.
    pub fn try_push(&mut self, elem: T) -> (r: Result<(), Error>)
        requires
            old(self).wf(),
        ensures
            final(self).wf(),
            final(self).capacity() == old(self).capacity(),
            match r {
                Ok(_) => old(self)@.len() < old(self).capacity()
                    && final(self)@ == old(self)@.push(elem),
                Err(e) => e == Error::FullBuffer && old(self)@.len() == old(self).capacity()
                    && final(self)@ == old(self)@,
            },
    {
        if self.num_elements == self.buffer.len() {
            Err(Error::FullBuffer)
        } else {
            let n = self.buffer.len();
            self.num_elements = self.num_elements + 1;
            self.buffer.set(self.tail, elem);
            self.tail = (self.tail + 1) % n;
            proof {
                let h = self.head as int;
                let c = old(self).num_elements as int;
                let ni = n as int;
                let t = old(self).tail as int;
                lemma_mod_in_range(h + c, ni);
                lemma_mod_in_range(t + 1, ni);
                lemma_mod_in_range(h + c + 1, ni);
                assert forall|i: int| 0 <= i < c implies self@[i] == old(self)@[i] by {
                    lemma_mod_in_range(h + i, ni);
                }
                assert(self@[c] == elem);
                assert(self@ =~= old(self)@.push(elem));
            }
            Ok(())
        }
    }

    /// Attempts to remove the oldest element, at the head.  Returns a copy
    /// of it exactly when the buffer holds one; an empty buffer is left
    /// unchanged and reports `None`.
    pub fn pop(&mut self) -> (r: Option<T>)
        requires
            old(self).wf(),
        ensures
            final(self).wf(),
            final(self).capacity() == old(self).capacity(),
            match r {
                Some(e) => old(self)@.len() > 0 && e == old(self)@[0]
                    && final(self)@ == old(self)@.subrange(1, old(self)@.len() as int),
                None => old(self)@.len() == 0 && final(self)@ == old(self)@,
            },
    {
        if self.num_elements == 0 {
            None
        } else {
            let n = self.buffer.len();
            self.num_elements = self.num_elements - 1;
            let elem = self.buffer[self.head];
            self.head = (self.head + 1) % n;
            proof {
                let h = old(self).head as int;
                let c = old(self).num_elements as int;
                let ni = self.buffer@.len() as int;
                lemma_mod_in_range(h, ni);
                lemma_mod_in_range(h + 1, ni);
                lemma_mod_in_range(h + c, ni);
                lemma_mod_in_range(self.head + (c - 1), ni);
                assert forall|i: int| 0 <= i < c - 1 implies self@[i] == old(self)@[i + 1] by {
                    lemma_mod_in_range(self.head + i, ni);
                    lemma_mod_in_range(h + 1 + i, ni);
                }
                assert(elem == old(self)@[0]);
                assert(self@ =~= old(self)@.subrange(1, old(self)@.len() as int));
            }
            Some(elem)
        }
    }

    /// Whether every slot holds a live element; a buffer of capacity 0 is
    /// always full.
    pub fn is_full(&self) -> (r: bool)
        ensures
            r == (self@.len() == self.capacity()),
    {
        self.num_elements == self.buffer.len()
    }

    /// Whether no slot holds a live element.
    pub fn is_empty(&self) -> (r: bool)
        ensures
            r == (self@.len() == 0),
    {
        self.num_elements == 0
    }

    /// The number of live elements currently held.
    pub fn len(&self) -> (r: usize)
        ensures
            r == self@.len(),
    {
        self.num_elements
    }
}

/// For `0 <= x < 2 * n` the remainder of `x` by `n` needs at most one
/// subtraction; this pins every use of `%` in the buffer down to linear
/// arithmetic.
proof fn lemma_mod_in_range(x: int, n: int)
    requires
        0 <= x,
        x < 2 * n,
    ensures
        x % n == (if x < n { x } else { x - n }),
{
    assert(x % n == (if x < n { x } else { x - n })) by (nonlinear_arith)
        requires
            0 <= x,
            x < 2 * n,
    ;
}

} // verus!
