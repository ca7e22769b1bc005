//! A generic ring buffer of fixed capacity `N`, viewed as the sequence
//! of its elements from oldest to newest.

use vstd::prelude::*;
use vstd::arithmetic::div_mod::lemma_add_mod_noop;
use vstd::arithmetic::div_mod::lemma_mod_add_multiples_vanish;
use vstd::arithmetic::div_mod::lemma_mod_bound;
use vstd::arithmetic::div_mod::lemma_mod_equivalence;
use vstd::arithmetic::div_mod::lemma_small_mod;

verus! {

/// Stepping an index that already lies in `[0, n)` by `i < n` more
/// places wraps the same way as stepping the unreduced index.
proof fn lemma_wrap_step(h: int, i: int, n: int)
    requires
        n >= 1,
        0 <= h,
        0 <= i,
    ensures
        ((h % n) + i) % n == (h + i) % n,
{
    lemma_add_mod_noop(h, i, n);
    lemma_add_mod_noop(h % n, i, n);
    lemma_mod_bound(h, n);
    lemma_small_mod((h % n) as nat, n as nat);
}

/// Indices `i < j` within one lap land on distinct slots.
proof fn lemma_wrap_distinct(h: int, i: int, j: int, n: int)
    requires
        n >= 1,
        0 <= h,
        0 <= i < j,
        j - i < n,
    ensures
        (h + i) % n != (h + j) % n,
{
    if (h + i) % n == (h + j) % n {
        lemma_mod_equivalence(h + j, h + i, n);
        lemma_small_mod((j - i) as nat, n as nat);
    }
}

/// A whole lap lands back on the same slot.
proof fn lemma_wrap_full(h: int, n: int)
    requires
        n >= 1,
        0 <= h < n,
    ensures
        (h + n) % n == h,
{
    lemma_mod_add_multiples_vanish(h, n);
    lemma_small_mod(h as nat, n as nat);
}

/// A bounded first-in, first-out buffer. Pushing into a full buffer
/// evicts and returns the oldest element.
pub struct StackRingBuffer<T, const N: usize> {
    buffer: Vec<Option<T>>,
    head: usize,
    tail: usize,
    len: usize,
}

impl<T, const N: usize> StackRingBuffer<T, N> {
    /// The storage is exactly `N` wide, the indices wrap within it,
    /// and every live slot is occupied.
    pub closed spec fn well_formed(&self) -> bool {
        &&& N >= 1
        &&& self.buffer@.len() == N
        &&& self.head < N
        &&& self.tail < N
        &&& self.len <= N
        &&& self.tail == (self.head + self.len) % (N as int)
        &&& forall|i: int|
            0 <= i < self.len ==> #[trigger] self.buffer@[(self.head + i) % (N as int)] is Some
    }

    /// The elements held, oldest first.
    pub closed spec fn view(&self) -> Seq<T> {
        Seq::new(self.len as nat, |i: int| self.buffer@[(self.head + i) % (N as int)].unwrap())
    }

    /// An empty buffer.
    pub fn new() -> (s: Self)
        requires
            N >= 1,
        ensures
            s.well_formed(),
            s.view() == Seq::<T>::empty(),
    {
        let mut buffer: Vec<Option<T>> = Vec::new();
        let mut k: usize = 0;
        while k < N
            invariant
                k <= N,
                buffer@.len() == k,
            decreases N - k,
        {
            buffer.push(None);
            k = k + 1;
        }
        let s = StackRingBuffer { buffer, head: 0, tail: 0, len: 0 };
        proof {
            lemma_small_mod(0nat, N as nat);
            assert(s.view() =~= Seq::<T>::empty());
        }
        s
    }

    /// How many elements are held.
    pub fn len(&self) -> (n: usize)
        requires
            self.well_formed(),
        ensures
            n == self.view().len(),
    {
        self.len
    }

    /// Adds an element at the newest end. When the buffer is full, the
    /// oldest element is evicted and returned; otherwise `None`.
    pub fn push_overflow(&mut self, item: T) -> (r: Option<T>)
        requires
            old(self).well_formed(),
        ensures
            final(self).well_formed(),
            if old(self).view().len() == N {
                r == Some(old(self).view()[0]) && final(self).view() == old(
                    self,
                ).view().drop_first().push(item)
            } else {
                r is None && final(self).view() == old(self).view().push(item)
            },
    {
        let ghost pre = *self;
        let ghost n = N as int;
        if self.len == N {
            proof {
                lemma_small_mod(pre.head as nat, N as nat);
                lemma_wrap_full(pre.head as int, n);
                assert(pre.tail == pre.head);
                assert(pre.buffer@[(pre.head + 0) % (N as int)] is Some);
                assert((pre.head + 0) % (N as int) == pre.head as int);
                assert(pre.view()[0] == pre.buffer@[pre.head as int].unwrap());
            }
            let slot = self.buffer.remove(self.head);
            self.buffer.insert(self.head, None);
            proof {
                assert(self.buffer@ =~= pre.buffer@.update(pre.head as int, None));
            }
            let kept = self.head;
            self.head = (kept + 1) % N;
            self.len = self.len - 1;
            let at = self.tail;
            let slot2 = self.buffer.remove(at);
            self.buffer.insert(at, Some(item));
            proof {
                assert(self.buffer@ =~= pre.buffer@.update(pre.head as int, Some(item)));
            }
            self.tail = (at + 1) % N;
            self.len = self.len + 1;
            proof {
                lemma_ring_push_full(pre, *self, item);
            }
            slot
        } else {
            let at = self.tail;
            let slot2 = self.buffer.remove(at);
            self.buffer.insert(at, Some(item));
            proof {
                assert(self.buffer@ =~= pre.buffer@.update(pre.tail as int, Some(item)));
            }
            self.tail = (at + 1) % N;
            self.len = self.len + 1;
            proof {
                lemma_ring_push_spare(pre, *self, item);
            }
            None
        }
    }

    /// Removes and returns the oldest element; `None` when empty.
    pub fn pop(&mut self) -> (r: Option<T>)
        requires
            old(self).well_formed(),
        ensures
            final(self).well_formed(),
            if old(self).view().len() == 0 {
                r is None && final(self).view() == old(self).view()
            } else {
                r == Some(old(self).view()[0]) && final(self).view() == old(
                    self,
                ).view().drop_first()
            },
    {
        if self.len == 0 {
            return None;
        }
        let ghost pre = *self;
        proof {
            lemma_small_mod(pre.head as nat, N as nat);
            assert(pre.buffer@[(pre.head + 0) % (N as int)] is Some);
            assert((pre.head + 0) % (N as int) == pre.head as int);
            assert(pre.view()[0] == pre.buffer@[pre.head as int].unwrap());
        }
        let slot = self.buffer.remove(self.head);
        self.buffer.insert(self.head, None);
        proof {
            assert(self.buffer@ =~= pre.buffer@.update(pre.head as int, None));
        }
        let kept = self.head;
        self.head = (kept + 1) % N;
        self.len = self.len - 1;
        proof {
            lemma_ring_pop(pre, *self);
        }
        slot
    }
}

/// Pushing into a full ring: the slot of the evicted oldest element is
/// exactly where the new element lands, and the view shifts by one.
proof fn lemma_ring_push_full<T, const N: usize>(
    pre: StackRingBuffer<T, N>,
    post: StackRingBuffer<T, N>,
    item: T,
)
    requires
        pre.well_formed(),
        pre.len == N,
        post.buffer@ == pre.buffer@.update(pre.head as int, Some(item)),
        post.head == (pre.head + 1) % (N as int),
        post.tail == (pre.tail + 1) % (N as int),
        post.len == N,
    ensures
        post.well_formed(),
        post.view() == pre.view().drop_first().push(item),
{
    let n = N as int;
    lemma_mod_bound(pre.head + 1, n);
    lemma_mod_bound(pre.tail + 1, n);
    lemma_small_mod(pre.head as nat, N as nat);
    lemma_wrap_full(pre.head as int, n);
    assert(pre.tail == pre.head);
    assert(post.tail == post.head);
    lemma_wrap_step(pre.head + 1, N as int - 1, n);
    lemma_wrap_full(post.head as int, n);
    assert(post.tail == (post.head + post.len) % n);
    assert forall|i: int| 0 <= i < N implies post.view()[i] == (if i < N - 1 {
        pre.view()[i + 1]
    } else {
        item
    }) && #[trigger] post.buffer@[(post.head + i) % (N as int)] is Some by {
        lemma_wrap_step(pre.head + 1, i, n);
        assert((post.head + i) % n == (pre.head + (1 + i)) % n);
        lemma_mod_bound(pre.head + 1 + i, n);
        if i < N - 1 {
            lemma_wrap_distinct(pre.head as int, 0, 1 + i, n);
            lemma_small_mod(pre.head as nat, N as nat);
            assert((post.head + i) % n != pre.head as int);
            assert(post.buffer@[(post.head + i) % n] == pre.buffer@[(pre.head + (1 + i)) % n]);
        } else {
            lemma_wrap_full(pre.head as int, n);
            assert((post.head + i) % n == pre.head as int);
            assert(post.buffer@[(post.head + i) % n] == Some(item));
        }
    }
    assert(post.view() =~= pre.view().drop_first().push(item));
}

/// Pushing with room to spare: the view simply grows at the newest
/// end.
proof fn lemma_ring_push_spare<T, const N: usize>(
    pre: StackRingBuffer<T, N>,
    post: StackRingBuffer<T, N>,
    item: T,
)
    requires
        pre.well_formed(),
        pre.len < N,
        post.buffer@ == pre.buffer@.update(pre.tail as int, Some(item)),
        post.head == pre.head,
        post.tail == (pre.tail + 1) % (N as int),
        post.len == pre.len + 1,
    ensures
        post.well_formed(),
        post.view() == pre.view().push(item),
{
    let n = N as int;
    lemma_mod_bound(pre.tail + 1, n);
    lemma_wrap_step(pre.head + pre.len, 1, n);
    assert(post.tail == (pre.head + pre.len + 1) % n);
    assert(post.tail == (post.head + post.len) % n);
    assert forall|i: int| 0 <= i < post.len implies post.view()[i] == (if i < pre.len {
        pre.view()[i]
    } else {
        item
    }) && #[trigger] post.buffer@[(post.head + i) % (N as int)] is Some by {
        lemma_mod_bound(pre.head + i, n);
        if i < pre.len {
            lemma_wrap_distinct(pre.head as int, i, pre.len as int, n);
            assert((pre.head + i) % n != pre.tail as int);
            assert(post.buffer@[(pre.head + i) % n] == pre.buffer@[(pre.head + i) % n]);
        } else {
            assert((pre.head + i) % n == pre.tail as int);
            assert(post.buffer@[(pre.head + i) % n] == Some(item));
        }
    }
    assert(post.view() =~= pre.view().push(item));
}

/// Popping: advancing the head shifts the view left by one.
proof fn lemma_ring_pop<T, const N: usize>(pre: StackRingBuffer<T, N>, post: StackRingBuffer<T, N>)
    requires
        pre.well_formed(),
        pre.len >= 1,
        post.buffer@ == pre.buffer@.update(pre.head as int, None),
        post.head == (pre.head + 1) % (N as int),
        post.tail == pre.tail,
        post.len == pre.len - 1,
    ensures
        post.well_formed(),
        post.view() == pre.view().drop_first(),
{
    let n = N as int;
    lemma_mod_bound(pre.head + 1, n);
    lemma_wrap_step(pre.head + 1, post.len as int, n);
    assert((post.head + post.len) % n == (pre.head + pre.len) % n);
    assert(post.tail == (post.head + post.len) % n);
    assert forall|i: int| 0 <= i < post.len implies post.view()[i] == pre.view()[i + 1]
        && #[trigger] post.buffer@[(post.head + i) % (N as int)] is Some by {
        lemma_wrap_step(pre.head + 1, i, n);
        assert((post.head + i) % n == (pre.head + (1 + i)) % n);
        lemma_mod_bound(pre.head + 1 + i, n);
        lemma_wrap_distinct(pre.head as int, 0, 1 + i, n);
        lemma_small_mod(pre.head as nat, N as nat);
        assert((post.head + i) % n != pre.head as int);
        assert(post.buffer@[(post.head + i) % n] == pre.buffer@[(pre.head + (1 + i)) % n]);
    }
    assert(post.view() =~= pre.view().drop_first());
}

} // verus!
