use std::collections::VecDeque;
use vstd::prelude::*;

verus! {

/// What a history of capacity `cap` holds after `v` is pushed onto `s`
/// (newest first): the oldest entry falls off once `cap` is reached.
pub open spec fn pushed<T>(s: Seq<T>, v: T, cap: nat) -> Seq<T> {
    let t = seq![v] + s;
    if t.len() > cap {
        t.subrange(0, cap as int)
    } else {
        t
    }
}

/// A bounded history that overwrites its oldest entry once full.
/// Index 0 is the most recently pushed value.
pub struct RingBuffer<T> {
    data: VecDeque<T>,
    capacity: usize,
}

impl<T> View for RingBuffer<T> {
    type V = Seq<T>;

    /// The entries, newest first.
    closed spec fn view(&self) -> Seq<T> {
        self.data@
    }
}

impl<T> RingBuffer<T> {
    /// The fixed capacity the buffer was made with.
    pub closed spec fn cap(&self) -> nat {
        self.capacity as nat
    }

    /// The capacity is positive and the buffer never holds more than it.
    pub closed spec fn wf(&self) -> bool {
        &&& self.capacity > 0
        &&& self.data@.len() <= self.capacity
    }

    /// An empty history of capacity `size`, which must be positive.
    pub fn with_size(size: usize) -> (r: Self)
        requires
            size > 0,
        ensures
            r.wf(),
            r@ == Seq::<T>::empty(),
            r.cap() == size,
    {
        RingBuffer { data: VecDeque::with_capacity(size), capacity: size }
    }

    /// The fixed capacity the buffer was made with.
    pub fn capacity(&self) -> (r: usize)
        ensures
            r == self.cap(),
            self.wf() ==> r > 0,
    {
        self.capacity
    }

    /// How many entries the buffer holds.
    pub fn len(&self) -> (r: usize)
        requires
            self.wf(),
        ensures
            r == self@.len(),
    {
        self.data.len()
    }

    /// Adds `val` as the newest entry, dropping the oldest one when full.
    pub fn push(&mut self, val: T)
        requires
            old(self).wf(),
        ensures
            final(self).wf(),
            final(self).cap() == old(self).cap(),
            final(self)@ == pushed(old(self)@, val, old(self).cap()),
    {
        if self.data.len() >= self.capacity {
            self.data.pop_back();
        }
        self.data.push_front(val);
        assert(self.data@ =~= pushed(old(self)@, val, old(self).cap()));
    }

    /// The entry `idx` places back from the newest, if the buffer holds one.
    pub fn get(&self, idx: usize) -> (r: Option<&T>)
        requires
            self.wf(),
        ensures
            idx < self@.len() ==> r == Some(&self@[idx as int]),
            idx >= self@.len() ==> r.is_none(),
    {
        if idx < self.data.len() {
            Some(&self.data[idx])
        } else {
            None
        }
    }
}

/// What a history of capacity `cap` holds after each of `items` is pushed onto
/// `s`, in order.
pub open spec fn pushed_all<T>(s: Seq<T>, items: Seq<T>, cap: nat) -> Seq<T>
    decreases items.len(),
{
    if items.len() == 0 {
        s
    } else {
        pushed(pushed_all(s, items.drop_last(), cap), items.last(), cap)
    }
}

/// Pushing `items` into an empty history of capacity `cap` leaves the last
/// `min(cap, items.len())` of them, newest first: the most recent push is at
/// index 0 and the length never passes `cap`.
pub proof fn lemma_keeps_newest<T>(items: Seq<T>, cap: nat)
    ensures
        ({
            let n = items.len();
            let k = if n < cap { n } else { cap };
            pushed_all(Seq::<T>::empty(), items, cap) == Seq::new(k, |i: int| items[n - 1 - i])
        }),
    decreases items.len(),
{
    let n = items.len();
    if n > 0 {
        let prev = items.drop_last();
        lemma_keeps_newest(prev, cap);
        let k = if n < cap { n } else { cap };
        assert(pushed_all(Seq::<T>::empty(), items, cap) =~= Seq::new(k, |i: int| items[n - 1 - i]));
    } else {
        assert(pushed_all(Seq::<T>::empty(), items, cap) =~= Seq::new(0, |i: int| items[n - 1 - i]));
    }
}

} // verus!
