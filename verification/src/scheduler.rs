//! A round-robin scheduler for cooperative threads.
//!
//! The scheduler decides which thread runs; switching the processor to that
//! thread is done by the caller.
use vstd::prelude::*;
use std::collections::VecDeque;
use crate::thread::Thread;

verus! {

/// The sequence rotated by one: the first element moves to the back.
pub open spec fn rotate<A>(s: Seq<A>) -> Seq<A> {
    if s.len() == 0 {
        s
    } else {
        s.drop_first().push(s[0])
    }
}

/// The sequence rotated `k` times.
pub open spec fn rotate_n<A>(s: Seq<A>, k: nat) -> Seq<A>
    decreases k,
{
    if k == 0 {
        s
    } else {
        rotate(rotate_n(s, (k - 1) as nat))
    }
}

/// The threads of `s` whose id is not `id`, in their order.
pub open spec fn without_id(s: Seq<Thread>, id: usize) -> Seq<Thread>
    decreases s.len(),
{
    if s.len() == 0 {
        s
    } else {
        let rest = without_id(s.drop_last(), id);
        if s.last().tid() == id {
            rest
        } else {
            rest.push(s.last())
        }
    }
}

/// Killing keeps exactly the threads with another id, in their order: the
/// queue filtered by the id. No remaining thread has the id, and every thread
/// with another id remains.
pub proof fn lemma_without_id_is_filter(s: Seq<Thread>, id: usize)
    ensures
        without_id(s, id) == s.filter(|t: Thread| t.tid() != id),
        forall|i: int| 0 <= i < without_id(s, id).len() ==> (#[trigger] without_id(s, id)[i]).tid() != id,
        forall|i: int| 0 <= i < s.len() && (#[trigger] s[i]).tid() != id ==> without_id(s, id).contains(s[i]),
    decreases s.len(),
{
    let pred = |t: Thread| t.tid() != id;
    reveal(Seq::filter);
    if s.len() > 0 {
        lemma_without_id_is_filter(s.drop_last(), id);
        assert(s.filter(pred) == (if pred(s.last()) { s.drop_last().filter(pred).push(s.last()) } else { s.drop_last().filter(pred) }));
    }
    broadcast use vstd::seq_lib::group_filter_ensures;
}

/// Rotating `k` times, for `k` no larger than the length, moves the first `k`
/// elements to the back.
pub proof fn lemma_rotate_n(s: Seq<Thread>, k: nat)
    requires
        k <= s.len(),
    ensures
        rotate_n(s, k) == s.skip(k as int) + s.take(k as int),
    decreases k,
{
    if k == 0 {
        assert(s.skip(0) + s.take(0) =~= s);
    } else {
        lemma_rotate_n(s, (k - 1) as nat);
        let prev = s.skip(k - 1) + s.take(k - 1);
        assert(prev.len() == s.len());
        assert(rotate(prev) =~= s.skip(k as int) + s.take(k as int));
    }
}

/// Round robin: when every thread has yielded once, in turn, the threads are
/// back in their original order.
pub proof fn lemma_round_robin(s: Seq<Thread>)
    ensures
        rotate_n(s, s.len()) == s,
{
    lemma_rotate_n(s, s.len());
    assert(s.skip(s.len() as int) + s.take(s.len() as int) =~= s);
}

/// Represents the scheduler: the active thread and the queue of ready threads.
pub struct Scheduler {
    active: Thread,
    ready_queue: VecDeque<Thread>,
}

impl Scheduler {
    /// The active thread.
    pub closed spec fn running(&self) -> Thread {
        self.active
    }

    /// The ready threads, front first.
    pub closed spec fn queue(&self) -> Seq<Thread> {
        self.ready_queue@
    }

    /// All threads: the active one, then the ready ones in queue order.
    pub open spec fn threads(&self) -> Seq<Thread> {
        seq![self.running()] + self.queue()
    }

    /// Create a new scheduler with an empty ready queue and the given idle
    /// thread as the active thread.
    pub fn new(idle: Thread) -> (r: Scheduler)
        ensures
            r.running() == idle,
            r.queue() == Seq::<Thread>::empty(),
    {
        Scheduler { active: idle, ready_queue: VecDeque::new() }
    }

    /// Get the ID of the currently active thread.
    pub fn get_active_tid(&self) -> (r: usize)
        ensures
            r == self.running().tid(),
    {
        self.active.id()
    }

    /// Number of threads in the ready queue.
    pub fn num_ready(&self) -> (r: usize)
        ensures
            r == self.queue().len(),
    {
        self.ready_queue.len()
    }

    /// Start the scheduler: the thread to start is the active one.
    pub fn schedule(&self) -> (r: &Thread)
        ensures
            *r == self.running(),
    {
        &self.active
    }

    /// Register a new thread at the back of the ready queue.
    pub fn ready(&mut self, thread: Thread)
        ensures
            final(self).running() == old(self).running(),
            final(self).queue() == old(self).queue().push(thread),
    {
        self.ready_queue.push_back(thread);
    }

    /// Terminate the active thread: the front of the ready queue becomes the
    /// active thread, and the terminated thread is handed back.
    pub fn exit(&mut self) -> (r: Thread)
        requires
            old(self).queue().len() > 0,
        ensures
            r == old(self).running(),
            final(self).threads() == old(self).queue(),
    {
        let mut current = self.ready_queue.pop_front().unwrap();
        std::mem::swap(&mut self.active, &mut current);
        assert(self.threads() =~= old(self).queue());
        current
    }

    /// Yield the CPU: the front of the ready queue becomes the active thread
    /// and the previously active thread goes to the back of the queue.
    /// Returns whether a switch takes place; with an empty queue nothing changes.
    pub fn yield_cpu(&mut self) -> (r: bool)
        ensures
            r == (old(self).queue().len() > 0),
            final(self).threads() == rotate(old(self).threads()),
            !r ==> final(self).threads() == old(self).threads(),
    {
        match self.ready_queue.pop_front() {
            Some(next) => {
                let mut current = next;
                std::mem::swap(&mut self.active, &mut current);
                self.ready_queue.push_back(current);
                assert(self.threads() =~= rotate(old(self).threads()));
                true
            },
            None => {
                assert(rotate(old(self).threads()) =~= old(self).threads());
                false
            },
        }
    }

    /// Kill the thread with the given ID by removing it from the ready queue.
    /// The active thread is not affected.
    pub fn kill(&mut self, to_kill_id: usize)
        ensures
            final(self).running() == old(self).running(),
            final(self).queue() == without_id(old(self).queue(), to_kill_id),
    {
        let n = self.ready_queue.len();
        let ghost orig = self.ready_queue@;
        let mut i: usize = 0;
        while i < n
            invariant
                n == orig.len(),
                i <= n,
                self.active == old(self).active,
                orig == old(self).ready_queue@,
                self.ready_queue@ == orig.skip(i as int) + without_id(orig.take(i as int), to_kill_id),
            decreases n - i,
        {
            assert(orig.skip(i as int).len() > 0);
            let t = self.ready_queue.pop_front().unwrap();
            assert(t == orig[i as int]);
            assert(orig.take(i as int + 1).drop_last() =~= orig.take(i as int));
            if t.id() != to_kill_id {
                self.ready_queue.push_back(t);
            }
            assert(self.ready_queue@ =~= orig.skip(i as int + 1) + without_id(orig.take(i as int + 1), to_kill_id));
            i = i + 1;
        }
        assert(orig.take(n as int) =~= orig);
        assert(self.ready_queue@ =~= without_id(orig, to_kill_id));
    }
}

} // verus!
