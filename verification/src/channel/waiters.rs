//! Who waits for a channel to get on.

use vstd::prelude::*;

verus! {

/// Who waits for one end of a channel: threads, which say when they no longer
/// do, and tasks, which are woken once.
#[derive(Clone, Debug)]
pub struct Waiters {
    pub threads: Vec<u64>,
    pub tasks: Vec<u64>,
}

/// Who is to be woken.
#[derive(Clone, Debug)]
pub struct Woken {
    pub threads: Vec<u64>,
    pub tasks: Vec<u64>,
}

fn copied(items: &Vec<u64>) -> (r: Vec<u64>)
    ensures
        r@ == items@,
{
    let mut r: Vec<u64> = Vec::new();
    for i in 0..items.len()
        invariant
            r@ == items@.take(i as int),
    {
        r.push(items[i]);
        assert(r@ =~= items@.take(i + 1));
    }
    assert(items@.take(items@.len() as int) =~= items@);
    r
}

impl Waiters {
    /// Nobody.
    pub fn new() -> (r: Waiters)
        ensures
            r.threads@ == Seq::<u64>::empty(),
            r.tasks@ == Seq::<u64>::empty(),
    {
        Waiters { threads: Vec::new(), tasks: Vec::new() }
    }

    /// Where a thread stands among those that wait.
    fn find(&self, thread: u64) -> (r: Option<usize>)
        ensures
            match r {
                Some(i) => i < self.threads.len() && self.threads@[i as int] == thread
                    && self.threads@.contains(thread),
                None => !self.threads@.contains(thread),
            },
    {
        for i in 0..self.threads.len()
            invariant
                forall|j: int| 0 <= j < i ==> self.threads@[j] != thread,
        {
            if self.threads[i] == thread {
                return Some(i);
            }
        }
        None
    }

    /// Whether a thread waits.
    pub fn waits(&self, thread: u64) -> (r: bool)
        ensures
            r == self.threads@.contains(thread),
    {
        self.find(thread).is_some()
    }

    /// A thread waits from now on.
    pub fn subscribe(&mut self, thread: u64)
        requires
            !old(self).threads@.contains(thread),
        ensures
            final(self).threads@ == old(self).threads@.push(thread),
            final(self).tasks@ == old(self).tasks@,
    {
        self.threads.push(thread);
    }

    /// A thread no longer waits.
    pub fn unsubscribe(&mut self, thread: u64)
        requires
            old(self).threads@.contains(thread),
            old(self).threads@.no_duplicates(),
        ensures
            final(self).threads@ == old(self).threads@.remove(old(self).threads@.index_of(thread)),
            !final(self).threads@.contains(thread),
            final(self).threads@.no_duplicates(),
            final(self).tasks@ == old(self).tasks@,
    {
        let i: usize = self.find(thread).unwrap();
        proof {
            let k = self.threads@.index_of(thread);
            assert(0 <= k < self.threads@.len() && self.threads@[k] == thread);
        }
        let _ = self.threads.remove(i);
    }

    /// A task is to be woken when the channel next gets on.
    pub fn poll_later(&mut self, task: u64)
        ensures
            final(self).threads@ == old(self).threads@,
            final(self).tasks@ == old(self).tasks@.push(task),
    {
        self.tasks.push(task);
    }

    /// The channel got on: all threads that wait are woken, and go on waiting
    /// until they say otherwise; all tasks are woken, and no longer wait.
    pub fn wake(&mut self) -> (r: Woken)
        ensures
            r.threads@ == old(self).threads@,
            r.tasks@ == old(self).tasks@,
            final(self).threads@ == old(self).threads@,
            final(self).tasks@ == Seq::<u64>::empty(),
    {
        let threads = copied(&self.threads);
        let tasks = copied(&self.tasks);
        self.tasks = Vec::new();
        Woken { threads, tasks }
    }
}

} // verus!
