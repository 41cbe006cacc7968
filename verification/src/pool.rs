//! A pool of processes that take jobs in turn and answer each in order.

use vstd::prelude::*;

verus! {

/// What became of a job.
pub enum Queued<T> {
    /// Its answer has not come yet.
    Awaiting,
    /// Its answer has come.
    Got(T),
    /// Its answer was taken.
    Taken,
}

/// A process of the pool, and the jobs that it was given.
pub struct Process<T> {
    /// The jobs from number `tail` on.
    queue: Vec<Queued<T>>,
    /// How many answers have come.
    received: usize,
    /// How many of the first jobs are done with.
    tail: usize,
}

/// A pool of processes.
pub struct ProcessPool<T> {
    processes: Vec<Process<T>>,
    i: usize,
}

/// A job that was given to the pool.
#[derive(Copy, Clone, PartialEq, Eq, Debug, Structural)]
pub struct JoinHandle {
    /// Which process has it.
    pub process: usize,
    /// Which of the jobs of that process it is.
    pub offset: usize,
}

/// The jobs of a process, from the first on, and how many answers have come.
pub struct Jobs<T> {
    pub all: Seq<Queued<T>>,
    pub received: int,
}

impl<T> Jobs<T> {
    /// Whether the answers came in the order of the jobs: there is one for each
    /// of the first `received` jobs, which may be taken, and none for another.
    pub open spec fn wf(self) -> bool {
        &&& 0 <= self.received <= self.all.len() <= usize::MAX
        &&& forall|n: int| 0 <= n < self.received ==> !(#[trigger] self.all[n] is Awaiting)
        &&& forall|n: int| self.received <= n < self.all.len() ==> #[trigger] self.all[n] is Awaiting
    }
}

impl<T> View for Process<T> {
    type V = Jobs<T>;

    closed spec fn view(&self) -> Jobs<T> {
        Jobs {
            all: Seq::new(
                (self.tail + self.queue@.len()) as nat,
                |n: int|
                    if n < self.tail {
                        Queued::Taken
                    } else {
                        self.queue@[n - self.tail]
                    },
            ),
            received: self.received as int,
        }
    }
}

impl<T> Process<T> {
    spec fn inv(&self) -> bool {
        self@.wf() && self.tail <= self.received
    }

    fn new() -> (r: Process<T>)
        ensures
            r.inv(),
            r@.all.len() == 0,
            r@.received == 0,
    {
        Process { queue: Vec::new(), received: 0, tail: 0 }
    }

    fn push(&mut self) -> (offset: usize)
        requires
            old(self).inv(),
            old(self)@.all.len() < usize::MAX,
        ensures
            final(self).inv(),
            final(self)@.all == old(self)@.all.push(Queued::Awaiting),
            final(self)@.received == old(self)@.received,
            offset == old(self)@.all.len(),
    {
        let offset: usize = self.tail + self.queue.len();
        self.queue.push(Queued::Awaiting);
        assert(self@.all =~= old(self)@.all.push(Queued::Awaiting));
        offset
    }

    fn receive(&mut self, t: T)
        requires
            old(self).inv(),
            old(self)@.received < old(self)@.all.len(),
        ensures
            final(self).inv(),
            final(self)@.all == old(self)@.all.update(old(self)@.received, Queued::Got(t)),
            final(self)@.received == old(self)@.received + 1,
    {
        let at: usize = self.received - self.tail;
        self.queue.set(at, Queued::Got(t));
        self.received += 1;
        assert(self@.all =~= old(self)@.all.update(old(self)@.received, Queued::Got(t)));
    }

    fn take(&mut self, offset: usize) -> (t: T)
        requires
            old(self).inv(),
            offset < old(self)@.all.len(),
            old(self)@.all[offset as int] is Got,
        ensures
            final(self).inv(),
            old(self)@.all[offset as int] == Queued::Got(t),
            final(self)@.all == old(self)@.all.update(offset as int, Queued::Taken),
            final(self)@.received == old(self)@.received,
    {
        let at: usize = offset - self.tail;
        let ghost before = self@.all;
        assert(before[offset as int] == self.queue@[at as int]);
        let job = self.queue.remove(at);
        self.queue.insert(at, Queued::Taken);
        let ghost jobs = before.update(offset as int, Queued::Taken);
        assert(self@.all =~= jobs);
        while self.queue.len() > 0 && is_taken(&self.queue[0])
            invariant
                self@.all == jobs,
                self@.received == old(self)@.received,
                self.inv(),
            decreases self.queue.len(),
        {
            assert(jobs[self.tail as int] == self.queue@[0]);
            let ghost was = self.queue@;
            let _ = self.queue.remove(0);
            self.tail += 1;
            assert(self@.all =~= jobs);
        }
        match job {
            Queued::Got(t) => t,
            _ => vstd::pervasive::unreached(),
        }
    }
}

fn is_taken<T>(job: &Queued<T>) -> (r: bool)
    ensures
        r == (*job is Taken),
{
    match job {
        Queued::Taken => true,
        _ => false,
    }
}

/// The jobs of all processes of a pool, and which process is given the next.
pub struct Pool<T> {
    pub processes: Seq<Jobs<T>>,
    pub next: int,
}

impl<T> Pool<T> {
    /// Whether a pool is sound.
    pub open spec fn wf(self) -> bool {
        &&& 0 <= self.next
        &&& self.next < self.processes.len() || (self.next == 0 && self.processes.len() == 0)
        &&& forall|p: int| 0 <= p < self.processes.len() ==> (#[trigger] self.processes[p]).wf()
    }

    /// Whether `job` was given to this pool.
    pub open spec fn has(self, job: JoinHandle) -> bool {
        job.process < self.processes.len() && job.offset < self.processes[job.process as int].all.len()
    }

    /// What became of `job`.
    pub open spec fn became(self, job: JoinHandle) -> Queued<T> {
        self.processes[job.process as int].all[job.offset as int]
    }
}

impl<T> View for ProcessPool<T> {
    type V = Pool<T>;

    closed spec fn view(&self) -> Pool<T> {
        Pool {
            processes: self.processes@.map_values(|process: Process<T>| process@),
            next: self.i as int,
        }
    }
}

impl<T> ProcessPool<T> {
    /// Whether a pool is sound.
    pub closed spec fn wf(&self) -> bool {
        &&& self@.wf()
        &&& forall|p: int| 0 <= p < self.processes@.len() ==> (#[trigger] self.processes@[p]).inv()
    }

    /// A pool of `processes` processes without jobs.
    pub fn new(processes: usize) -> (r: ProcessPool<T>)
        ensures
            r.wf(),
            r@.wf(),
            r@.next == 0,
            r@.processes.len() == processes,
            forall|p: int|
                0 <= p < processes ==> (#[trigger] r@.processes[p]).all.len() == 0
                    && r@.processes[p].received == 0,
    {
        let mut all: Vec<Process<T>> = Vec::new();
        for n in 0..processes
            invariant
                all@.len() == n,
                forall|p: int| 0 <= p < n ==> (#[trigger] all@[p]).inv() && all@[p]@.all.len() == 0
                    && all@[p]@.received == 0,
        {
            all.push(Process::new());
        }
        let r = ProcessPool { processes: all, i: 0 };
        assert forall|p: int| 0 <= p < r@.processes.len() implies (#[trigger] r@.processes[p]).wf()
            && r@.processes[p].all.len() == 0 && r@.processes[p].received == 0 by {
            assert(r@.processes[p] == r.processes@[p]@);
            assert(r.processes@[p].inv());
        }
        r
    }

    /// Gives a job to the process whose turn it is. The job has to be sent to
    /// that process. A pool without processes takes none.
    pub fn spawn(&mut self) -> (job: JoinHandle)
        requires
            old(self).wf(),
            old(self)@.processes.len() > 0,
            old(self)@.processes[old(self)@.next].all.len() < usize::MAX,
        ensures
            final(self).wf(),
            final(self)@.wf(),
            job.process == old(self)@.next,
            job.offset == old(self)@.processes[old(self)@.next].all.len(),
            final(self)@.next == (old(self)@.next + 1) % old(self)@.processes.len() as int,
            final(self)@.processes == old(self)@.processes.update(
                old(self)@.next,
                Jobs {
                    all: old(self)@.processes[old(self)@.next].all.push(Queued::Awaiting),
                    ..old(self)@.processes[old(self)@.next]
                },
            ),
    {
        let ghost before = self@;
        let index: usize = self.i;
        let n: usize = self.processes.len();
        let mut process = self.processes.remove(index);
        assert(process@ == before.processes[index as int]);
        let offset: usize = process.push();
        self.processes.insert(index, process);
        self.i = if index == n - 1 {
            0
        } else {
            index + 1
        };
        proof {
            let n = before.processes.len() as int;
            if index + 1 == n {
                vstd::arithmetic::div_mod::lemma_mod_self_0(n);
            } else {
                vstd::arithmetic::div_mod::lemma_small_mod((index + 1) as nat, n as nat);
            }
            self.lemma_replaced(before, index as int);
            assert(self@.processes =~= before.processes.update(index as int, process@));
        }
        JoinHandle { process: index, offset }
    }

    proof fn lemma_replaced(&self, before: Pool<T>, index: int)
        requires
            before.wf(),
            0 <= index < self.processes@.len(),
            self.processes@.len() == before.processes.len(),
            0 <= self.i < self.processes@.len(),
            forall|p: int| 0 <= p < self.processes@.len() ==> (#[trigger] self.processes@[p]).inv(),
        ensures
            self.wf(),
            self@.wf(),
    {
        assert forall|p: int| 0 <= p < self@.processes.len() implies (
        #[trigger] self@.processes[p]).wf() by {
            assert(self@.processes[p] == self.processes@[p]@);
            assert(self.processes@[p].inv());
        }
    }

    /// Whether an answer of its process is to be waited for before that of `job`
    /// can be taken.
    pub fn waits(&self, job: JoinHandle) -> (r: bool)
        requires
            self.wf(),
            self@.has(job),
        ensures
            r == (self@.became(job) is Awaiting),
            r == (self@.processes[job.process as int].received <= job.offset),
    {
        assert(self@.processes[job.process as int] == self.processes@[job.process as int]@);
        assert(self.processes@[job.process as int].inv());
        self.processes[job.process].received <= job.offset
    }

    /// Takes in the next answer of a process: that of the first of its jobs that
    /// has none.
    pub fn received(&mut self, process: usize, t: T)
        requires
            old(self).wf(),
            process < old(self)@.processes.len(),
            old(self)@.processes[process as int].received < old(
                self,
            )@.processes[process as int].all.len(),
        ensures
            final(self).wf(),
            final(self)@.wf(),
            final(self)@.next == old(self)@.next,
            final(self)@.processes == old(self)@.processes.update(
                process as int,
                Jobs {
                    all: old(self)@.processes[process as int].all.update(
                        old(self)@.processes[process as int].received,
                        Queued::Got(t),
                    ),
                    received: old(self)@.processes[process as int].received + 1,
                },
            ),
    {
        let ghost before = self@;
        let mut it = self.processes.remove(process);
        assert(it@ == before.processes[process as int]);
        it.receive(t);
        self.processes.insert(process, it);
        proof {
            self.lemma_replaced(before, process as int);
            assert(self@.processes =~= before.processes.update(process as int, it@));
        }
    }

    /// Takes the answer of `job`, which has come.
    pub fn join(&mut self, job: JoinHandle) -> (t: T)
        requires
            old(self).wf(),
            old(self)@.has(job),
            old(self)@.became(job) is Got,
        ensures
            final(self).wf(),
            final(self)@.wf(),
            old(self)@.became(job) == Queued::Got(t),
            final(self)@.next == old(self)@.next,
            final(self)@.processes == old(self)@.processes.update(
                job.process as int,
                Jobs {
                    all: old(self)@.processes[job.process as int].all.update(
                        job.offset as int,
                        Queued::Taken,
                    ),
                    ..old(self)@.processes[job.process as int]
                },
            ),
    {
        let ghost before = self@;
        let mut it = self.processes.remove(job.process);
        assert(it@ == before.processes[job.process as int]);
        let t = it.take(job.offset);
        self.processes.insert(job.process, it);
        proof {
            self.lemma_replaced(before, job.process as int);
            assert(self@.processes =~= before.processes.update(job.process as int, it@));
        }
        t
    }
}

/// The answer that comes first is that of the job that was given first: the
/// `n`th answer of a process is what the `n`th of its jobs is answered.
pub proof fn law_answers_keep_their_order<T>(jobs: Jobs<T>, t: T)
    requires
        jobs.wf(),
        jobs.received < jobs.all.len(),
    ensures
        ({
            let next = Jobs {
                all: jobs.all.update(jobs.received, Queued::Got(t)),
                received: jobs.received + 1,
            };
            &&& next.wf()
            &&& next.all[jobs.received] == Queued::Got(t)
            &&& forall|n: int|
                0 <= n < jobs.all.len() && n != jobs.received ==> #[trigger] next.all[n]
                    == jobs.all[n]
        }),
{
}

} // verus!
