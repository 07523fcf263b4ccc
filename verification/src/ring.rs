//! Fixed-capacity single-producer/single-consumer ring buffer.
//!
//! This queue bridges the hard-real-time audio callback and the
//! asynchronous network side: both ends are non-blocking. `try_push`
//! refuses new data when full (capture side: drop the newest), and
//! `push_evict` overwrites the oldest (playback side: keep only the most
//! recent samples); `try_pop` yields nothing rather than wait, and the
//! playback callback substitutes silence.
//!
//! The storage is an arena of at most `cap` slots with a head cursor and
//! a live count; the arena only grows until it first reaches capacity,
//! after which the cursors wrap.

use vstd::arithmetic::div_mod::{lemma_fundamental_div_mod_converse, lemma_small_mod};
use vstd::pervasive::VecAdditionalExecFns;
use vstd::prelude::*;

verus! {

pub struct RingBuffer<T> {
    buf: Vec<T>,
    head: usize,
    len: usize,
    cap: usize,
}

/// `a % cap` in closed form for one wrap-around.
proof fn lemma_wrap_index(a: int, cap: int)
    requires
        0 < cap,
        0 <= a < 2 * cap,
    ensures
        a % cap == if a < cap {
            a
        } else {
            a - cap
        },
{
    if a < cap {
        lemma_small_mod(a as nat, cap as nat);
    } else {
        lemma_fundamental_div_mod_converse(a, cap, 1, a - cap);
    }
}

impl<T> View for RingBuffer<T> {
    type V = Seq<T>;

    /// The live contents, oldest first.
    closed spec fn view(&self) -> Seq<T> {
        Seq::new(self.len as nat, |i: int| self.buf@[(self.head + i) % (self.cap as int)])
    }
}

impl<T> RingBuffer<T> {
    /// The fixed capacity the buffer was created with.
    pub closed spec fn spec_capacity(self) -> usize {
        self.cap
    }

    pub closed spec fn wf(self) -> bool {
        &&& self.cap >= 1
        &&& self.len <= self.cap
        &&& self.buf@.len() <= self.cap
        &&& if self.buf@.len() < self.cap {
            self.head + self.len == self.buf@.len()
        } else {
            self.head < self.cap
        }
    }

    /// The contents never exceed the capacity.
    pub proof fn lemma_len_bound(&self)
        requires
            self.wf(),
        ensures
            self@.len() <= self.spec_capacity(),
            self.spec_capacity() >= 1,
    {
    }

    pub fn capacity(&self) -> (c: usize)
        ensures
            c == self.spec_capacity(),
    {
        self.cap
    }

    pub fn len(&self) -> (n: usize)
        requires
            self.wf(),
        ensures
            n == self@.len(),
    {
        self.len
    }

    /// An empty buffer that will hold at most `capacity` elements.
    pub fn new(capacity: usize) -> (r: Self)
        requires
            capacity >= 1,
        ensures
            r.wf(),
            r@ == Seq::<T>::empty(),
            r.spec_capacity() == capacity,
    {
        let r = RingBuffer { buf: Vec::new(), head: 0, len: 0, cap: capacity };
        proof {
            assert(r@ =~= Seq::<T>::empty());
        }
        r
    }

    /// The slot index `(head + len) % cap` of the next free slot,
    /// computed without overflow.
    fn tail_index(&self) -> (t: usize)
        requires
            self.wf(),
            self.len < self.cap,
        ensures
            t == (self.head + self.len) % (self.cap as int),
            t < self.cap,
    {
        proof {
            lemma_wrap_index(self.head + self.len, self.cap as int);
        }
        if self.head >= self.cap - self.len {
            self.head - (self.cap - self.len)
        } else {
            self.head + self.len
        }
    }

    /// Advance the head cursor one slot, wrapping at `cap`.
    fn advance_head(&mut self)
        requires
            old(self).head < old(self).cap,
        ensures
            final(self).head == (old(self).head + 1) % (old(self).cap as int),
            final(self).buf == old(self).buf,
            final(self).len == old(self).len,
            final(self).cap == old(self).cap,
    {
        proof {
            lemma_wrap_index(self.head + 1, self.cap as int);
        }
        self.head = if self.head + 1 == self.cap {
            0
        } else {
            self.head + 1
        };
    }

    /// Non-blocking push for the capture side: when the buffer is full
    /// the sample is refused (the newest data is dropped) and the caller
    /// may count the loss; it never blocks and never displaces queued data.
    pub fn try_push(&mut self, x: T) -> (ok: bool)
        requires
            old(self).wf(),
        ensures
            final(self).wf(),
            final(self).spec_capacity() == old(self).spec_capacity(),
            ok == (old(self)@.len() < old(self).spec_capacity()),
            ok ==> final(self)@ == old(self)@.push(x),
            !ok ==> final(self)@ == old(self)@,
    {
        if self.len == self.cap {
            return false;
        }
        let ghost prev = *self;
        let t = self.tail_index();
        if self.buf.len() < self.cap {
            self.buf.push(x);
        } else {
            self.buf.set(t, x);
        }
        self.len = self.len + 1;
        proof {
            assert forall|i: int| 0 <= i < self.len implies self@[i] == prev@.push(x)[i] by {
                lemma_wrap_index(prev.head + i, prev.cap as int);
                lemma_wrap_index(prev.head + prev.len, prev.cap as int);
            }
            assert(self@ =~= prev@.push(x));
        }
        true
    }

}

impl<T: Copy> RingBuffer<T> {
    /// The oldest element, or nothing when empty: the playback side then
    /// substitutes silence rather than wait.
    pub fn try_pop(&mut self) -> (r: Option<T>)
        requires
            old(self).wf(),
        ensures
            final(self).wf(),
            final(self).spec_capacity() == old(self).spec_capacity(),
            old(self)@.len() == 0 ==> r is None && final(self)@ == old(self)@,
            old(self)@.len() > 0 ==> r == Some(old(self)@[0]) && final(self)@ == old(
                self,
            )@.drop_first(),
    {
        if self.len == 0 {
            return None;
        }
        let ghost prev = *self;
        proof {
            lemma_wrap_index(prev.head as int, prev.cap as int);
        }
        let x = self.buf[self.head];
        self.advance_head();
        self.len = self.len - 1;
        proof {
            lemma_wrap_index(prev.head + 1, prev.cap as int);
            assert forall|i: int| 0 <= i < self.len implies self@[i] == prev@.drop_first()[i] by {
                lemma_wrap_index(prev.head + 1 + i, prev.cap as int);
                lemma_wrap_index((prev.head + 1) % (prev.cap as int) + i, prev.cap as int);
            }
            assert(self@ =~= prev@.drop_first());
            assert(x == prev@[0]);
        }
        Some(x)
    }

    /// Non-blocking push for the playback side: when the buffer is full
    /// the oldest element is evicted and returned, so the buffer retains
    /// only the most recent `cap` elements.
    pub fn push_evict(&mut self, x: T) -> (evicted: Option<T>)
        requires
            old(self).wf(),
        ensures
            final(self).wf(),
            final(self).spec_capacity() == old(self).spec_capacity(),
            old(self)@.len() < old(self).spec_capacity() ==> evicted is None && final(self)@ == old(
                self,
            )@.push(x),
            old(self)@.len() == old(self).spec_capacity() ==> evicted == Some(old(self)@[0])
                && final(self)@ == old(self)@.drop_first().push(x),
    {
        if self.len < self.cap {
            let _ = self.try_push(x);
            return None;
        }
        let ghost prev = *self;
        proof {
            lemma_wrap_index(prev.head as int, prev.cap as int);
        }
        let old_val = self.buf[self.head];
        self.buf.set(self.head, x);
        self.advance_head();
        proof {
            lemma_wrap_index(prev.head + 1, prev.cap as int);
            assert forall|i: int| 0 <= i < self.len implies self@[i]
                == prev@.drop_first().push(x)[i] by {
                lemma_wrap_index(prev.head + 1 + i, prev.cap as int);
                lemma_wrap_index((prev.head + 1) % (prev.cap as int) + i, prev.cap as int);
            }
            assert(self@ =~= prev@.drop_first().push(x));
            assert(old_val == prev@[0]);
        }
        Some(old_val)
    }
}

/// The view reached by pushing every element of `q` in order.
pub open spec fn pushed<T>(s: Seq<T>, q: Seq<T>) -> Seq<T>
    decreases q.len(),
{
    if q.len() == 0 {
        s
    } else {
        pushed(s.push(q.first()), q.drop_first())
    }
}

pub proof fn lemma_pushed_is_append<T>(s: Seq<T>, q: Seq<T>)
    ensures
        pushed(s, q) == s + q,
    decreases q.len(),
{
    if q.len() == 0 {
        assert(pushed(s, q) =~= s + q);
    } else {
        lemma_pushed_is_append(s.push(q.first()), q.drop_first());
        assert(s.push(q.first()) + q.drop_first() =~= s + q);
    }
}

/// RingBuffer FIFO law: from an empty buffer, pushing the elements of
/// `q` in order (each `try_push` succeeds, since `q` fits the capacity)
/// makes the contents exactly `q`, and the `k`-th successive pop then
/// returns `q[k]`: elements leave in the order they entered.
pub proof fn lemma_ring_fifo<T>(q: Seq<T>, k: int)
    requires
        0 <= k < q.len(),
    ensures
        pushed(Seq::<T>::empty(), q) == q,
        pushed(Seq::<T>::empty(), q).skip(k).first() == q[k],
        pushed(Seq::<T>::empty(), q).skip(k).drop_first() == pushed(Seq::<T>::empty(), q).skip(
            k + 1,
        ),
{
    lemma_pushed_is_append(Seq::<T>::empty(), q);
    assert(Seq::<T>::empty() + q =~= q);
    assert(q.skip(k).drop_first() =~= q.skip(k + 1));
}

} // verus!
