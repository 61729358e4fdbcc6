//! The sample history: two bounded rings (every sample, and every n-th
//! sample for the long ranges) and the tick counter that says which
//! samples go to the second ring. The sampling loop itself (sleep, read,
//! store) is the caller's.

use std::collections::VecDeque;
use vstd::prelude::*;

verus! {

/// The last `cap` items of `s` (all of them when there are no more).
pub open spec fn last_n<T>(s: Seq<T>, cap: nat) -> Seq<T> {
    if s.len() > cap {
        s.skip(s.len() - cap)
    } else {
        s
    }
}

/// A ring that keeps the latest items, at most `cap` of them.
pub struct Ring<T> {
    items: VecDeque<T>,
    cap: usize,
}

impl<T> Ring<T> {
    #[verifier::type_invariant]
    spec fn inv(&self) -> bool {
        self.items@.len() <= self.cap
    }

    /// The items kept, oldest first.
    pub closed spec fn view(&self) -> Seq<T> {
        self.items@
    }

    /// How many items are kept at most.
    pub closed spec fn capacity(&self) -> nat {
        self.cap as nat
    }

    /// An empty ring keeping at most `cap` items.
    pub fn new(cap: usize) -> (r: Self)
        ensures
            r.view() == Seq::<T>::empty(),
            r.capacity() == cap,
    {
        Ring { items: VecDeque::new(), cap }
    }

    /// Adds `x` as the newest item, dropping the oldest beyond the
    /// capacity.
    pub fn push(&mut self, x: T)
        ensures
            final(self).view() == last_n(old(self).view().push(x), old(self).capacity()),
            final(self).capacity() == old(self).capacity(),
            final(self).view().len() <= final(self).capacity(),
    {
        proof {
            use_type_invariant(&*self);
        }
        let mut items: VecDeque<T> = VecDeque::new();
        std::mem::swap(&mut items, &mut self.items);
        let ghost s = items@.push(x);
        items.push_back(x);
        while items.len() > self.cap
            invariant
                s.len() <= self.cap + 1,
                items@ == last_n(s, (items@.len()) as nat),
                items@.len() == s.len() || items@.len() >= self.cap,
                items@.len() <= s.len(),
            decreases items.len(),
        {
            let _ = items.pop_front();
            assert(items@ =~= s.skip(s.len() - items@.len()));
        }
        assert(items@ =~= last_n(s, self.cap as nat));
        self.items = items;
    }

    /// The items kept, oldest first.
    pub fn items(&self) -> (r: &VecDeque<T>)
        ensures
            r@ == self.view(),
            r@.len() <= self.capacity(),
    {
        proof {
            use_type_invariant(self);
        }
        &self.items
    }

    /// How many items are kept now.
    pub fn len(&self) -> (n: usize)
        ensures
            n == self.view().len(),
    {
        self.items.len()
    }
}

/// A ring never holds more than its capacity, and after a push it holds
/// the pushed item as its newest, with the items before it in order.
pub proof fn lemma_ring_push<T>(s: Seq<T>, x: T, cap: nat)
    requires
        s.len() <= cap,
        cap > 0,
    ensures
        last_n(s.push(x), cap).len() <= cap,
        last_n(s.push(x), cap).last() == x,
        last_n(s.push(x), cap).drop_last() == last_n(s, (cap - 1) as nat),
{
    let t = s.push(x);
    if t.len() > cap {
        assert(t.skip(t.len() - cap).drop_last() =~= s.skip(s.len() - (cap - 1)));
    } else {
        assert(t.drop_last() =~= s);
    }
}

/// Counts samples and says which ones also go to the long-range ring:
/// every `every`-th.
pub struct SampleClock {
    tick: u64,
    every: u64,
}

impl SampleClock {
    #[verifier::type_invariant]
    spec fn inv(&self) -> bool {
        self.every > 0
    }

    /// Samples counted so far.
    pub closed spec fn ticks(&self) -> nat {
        self.tick as nat
    }

    /// Every how many samples one goes to the long-range ring.
    pub closed spec fn period(&self) -> nat {
        self.every as nat
    }

    /// A clock that has counted nothing.
    pub fn new(every: u64) -> (c: Self)
        requires
            every > 0,
        ensures
            c.ticks() == 0,
            c.period() == every,
    {
        SampleClock { tick: 0, every }
    }

    /// Samples counted so far.
    pub fn tick_count(&self) -> (t: u64)
        ensures
            t == self.ticks(),
    {
        self.tick
    }

    /// Counts one more sample; true when it is one for the long-range
    /// ring.
    pub fn next(&mut self) -> (slow: bool)
        requires
            old(self).ticks() < u64::MAX,
        ensures
            final(self).ticks() == old(self).ticks() + 1,
            final(self).period() == old(self).period(),
            slow == (final(self).ticks() % final(self).period() == 0),
    {
        proof {
            use_type_invariant(&*self);
        }
        self.tick = self.tick + 1;
        self.tick % self.every == 0
    }
}

} // verus!
