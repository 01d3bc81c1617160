use std::collections::VecDeque;
use vstd::prelude::*;

verus! {

/// The transport primitive of the bus: a first-in-first-out queue of `T`
/// together with the timeout, in milliseconds, that a consumer is willing to
/// wait on an empty queue before giving up.
///
/// This type is the queue's sequential core: `push` appends, `pop` takes the
/// head or reports emptiness, and both are exact about it.  An embedding that
/// shares one queue between threads puts this value behind its own lock and
/// condition, sleeps for at most `timeout_ms` when `pop` finds the queue
/// empty, and calls `pop` again after waking — the re-check is a `pop` of
/// this type, so a concurrent `push` that arrives during the wait is found by
/// it and never lost.
pub struct NonBlockDeque<T> {
    queue: VecDeque<T>,
    timeout_ms: u64,
}

impl<T> View for NonBlockDeque<T> {
    type V = Seq<T>;

    closed spec fn view(&self) -> Seq<T> {
        self.queue@
    }
}

impl<T> NonBlockDeque<T> {
    /// The wait bound this queue was constructed with, in milliseconds.
    pub closed spec fn spec_timeout_ms(&self) -> u64 {
        self.timeout_ms
    }

    pub fn new(timeout_ms: u64) -> (r: NonBlockDeque<T>)
        ensures
            r@ == Seq::<T>::empty(),
            r.spec_timeout_ms() == timeout_ms,
    {
        NonBlockDeque { queue: VecDeque::new(), timeout_ms }
    }

    /// The wait bound, for an embedding that performs the actual sleep.
    pub fn timeout_ms(&self) -> (r: u64)
        ensures
            r == self.spec_timeout_ms(),
    {
        self.timeout_ms
    }

    /// Appends `e` at the tail.  Always succeeds.
    pub fn push(&mut self, e: T)
        ensures
            final(self)@ == old(self)@.push(e),
            final(self).spec_timeout_ms() == old(self).spec_timeout_ms(),
    {
        self.queue.push_back(e);
    }

    /// Removes and returns the head, or returns `None` exactly when the queue
    /// is empty at the time of the call.
    pub fn pop(&mut self) -> (r: Option<T>)
        ensures
            final(self).spec_timeout_ms() == old(self).spec_timeout_ms(),
            match r {
                Some(e) => old(self)@.len() > 0 && e == old(self)@[0] && final(self)@ == old(self)@.drop_first(),
                None => old(self)@.len() == 0 && final(self)@ == old(self)@,
            },
    {
        self.queue.pop_front()
    }
}

/// First-in-first-out order: when a queue holds the items of `s`, the next
/// `pop` returns `s[0]` and leaves `s` without its head, so after `k` pops
/// without an intervening push the contents are `s.skip(k)` and pop number
/// `k` (counting from zero) returns `s[k]`.  Together with `push` appending
/// at the tail, items pushed in the order `m1, m2, ..., mn` are popped in
/// that same order.
pub proof fn lemma_fifo_order<T>(s: Seq<T>, k: int)
    requires
        0 <= k < s.len(),
    ensures
        s.skip(k)[0] == s[k],
        s.skip(k).drop_first() == s.skip(k + 1),
{
    assert(s.skip(k).drop_first() =~= s.skip(k + 1));
}

} // verus!
