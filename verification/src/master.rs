//! The master: which machine runs which process.

use crate::error::TrySpawnError;
use crate::pid::Pid;
use crate::resources::Resources;
use crate::units::{Cpu, Mem};
use vstd::prelude::*;

verus! {

/// What a machine has left to give.
#[derive(Copy, Clone, PartialEq, Eq, Debug, Structural)]
pub struct Node {
    pub mem: Mem,
    pub cpu: Cpu,
}

impl Node {
    /// Whether what is left is enough for `process`.
    pub open spec fn has_room(self, process: Resources) -> bool {
        process.mem.0 <= self.mem.0 && process.cpu.0 <= self.cpu.0
    }

    /// What is left once `process` is placed here.
    pub open spec fn less(self, process: Resources) -> Node {
        Node {
            mem: Mem((self.mem.0 - process.mem.0) as u64),
            cpu: Cpu((self.cpu.0 - process.cpu.0) as u32),
        }
    }

    /// What is left once `process` is gone from here.
    pub open spec fn more(self, process: Resources) -> Node {
        Node {
            mem: Mem((self.mem.0 + process.mem.0) as u64),
            cpu: Cpu((self.cpu.0 + process.cpu.0) as u32),
        }
    }

    /// Whether what is left is enough for `process`.
    pub fn fits(&self, process: &Resources) -> (r: bool)
        ensures
            r == self.has_room(*process),
    {
        process.mem.0 <= self.mem.0 && process.cpu.0 <= self.cpu.0
    }

    /// Sets aside what `process` needs.
    pub fn allocate(&mut self, process: &Resources)
        requires
            old(self).has_room(*process),
        ensures
            *final(self) == old(self).less(*process),
    {
        self.mem = self.mem - process.mem;
        self.cpu = self.cpu - process.cpu;
    }

    /// Gives back what `process` needed.
    pub fn free(&mut self, process: &Resources)
        requires
            old(self).mem.0 + process.mem.0 <= u64::MAX,
            old(self).cpu.0 + process.cpu.0 <= u32::MAX,
        ensures
            *final(self) == old(self).more(*process),
    {
        self.mem = self.mem + process.mem;
        self.cpu = self.cpu + process.cpu;
    }
}

/// A request for a process. The number tells requests apart.
#[derive(Copy, Clone, PartialEq, Eq, Debug, Structural)]
pub struct Request {
    pub id: u64,
    pub resources: Resources,
    /// Whether the request waits until there is room for it.
    pub block: bool,
}

/// A process that runs on a machine.
#[derive(Copy, Clone, PartialEq, Eq, Debug, Structural)]
pub struct Process {
    pub node: usize,
    pub pid: Pid,
    pub resources: Resources,
}

/// What the master is told.
#[derive(Copy, Clone, PartialEq, Eq, Debug, Structural)]
pub enum Message {
    /// A process is asked for, possibly on one particular machine.
    Spawn { request: Request, force: Option<usize> },
    /// The process that has been pending longest on a machine has started.
    Init { node: usize, pid: Pid },
    /// A process has ended.
    Done { node: usize, pid: Pid },
}

/// What the master has done next.
#[derive(Copy, Clone, PartialEq, Eq, Debug)]
pub enum Action {
    /// The request goes to a machine.
    Send { node: usize, request: Request },
    /// The request is answered.
    Reply { id: u64, result: Result<Pid, TrySpawnError> },
}

/// What the master knows.
#[verifier::ext_equal]
pub struct Cluster {
    /// What each machine has left to give.
    pub nodes: Seq<Node>,
    /// The requests that each machine has been sent and has not yet reported
    /// started, the oldest first.
    pub pending: Seq<Seq<Request>>,
    /// The processes that run.
    pub processes: Seq<Process>,
    /// The requests that wait for room, the oldest first.
    pub blocked: Seq<Request>,
}

/// The memory that some requests need together.
pub open spec fn requests_mem(requests: Seq<Request>) -> nat
    decreases requests.len(),
{
    if requests.len() == 0 {
        0
    } else {
        requests_mem(requests.drop_last()) + requests.last().resources.mem.0 as nat
    }
}

/// The processor time that some requests need together.
pub open spec fn requests_cpu(requests: Seq<Request>) -> nat
    decreases requests.len(),
{
    if requests.len() == 0 {
        0
    } else {
        requests_cpu(requests.drop_last()) + requests.last().resources.cpu.0 as nat
    }
}

/// The memory that the processes on machine `node` need together.
pub open spec fn processes_mem(processes: Seq<Process>, node: int) -> nat
    decreases processes.len(),
{
    if processes.len() == 0 {
        0
    } else {
        processes_mem(processes.drop_last(), node) + if processes.last().node == node {
            processes.last().resources.mem.0 as nat
        } else {
            0
        }
    }
}

/// The processor time that the processes on machine `node` need together.
pub open spec fn processes_cpu(processes: Seq<Process>, node: int) -> nat
    decreases processes.len(),
{
    if processes.len() == 0 {
        0
    } else {
        processes_cpu(processes.drop_last(), node) + if processes.last().node == node {
            processes.last().resources.cpu.0 as nat
        } else {
            0
        }
    }
}

impl Cluster {
    /// The memory of machine `node`: what is left, what is pending and what is
    /// in use.
    pub open spec fn total_mem(self, node: int) -> nat {
        self.nodes[node].mem.0 as nat + requests_mem(self.pending[node]) + processes_mem(
            self.processes,
            node,
        )
    }

    /// The processor time of machine `node`: what is left, what is pending and
    /// what is in use.
    pub open spec fn total_cpu(self, node: int) -> nat {
        self.nodes[node].cpu.0 as nat + requests_cpu(self.pending[node]) + processes_cpu(
            self.processes,
            node,
        )
    }

    /// Each machine has a queue of its own, no process is known twice, every
    /// process runs on a known machine, and no machine is larger than can be
    /// counted.
    pub open spec fn wf(self) -> bool {
        &&& self.pending.len() == self.nodes.len()
        &&& forall|i: int, j: int|
            #![trigger self.processes[i], self.processes[j]]
            0 <= i < j < self.processes.len() ==> self.processes[i].node != self.processes[j].node
                || self.processes[i].pid != self.processes[j].pid
        &&& forall|i: int|
            0 <= i < self.processes.len() ==> (#[trigger] self.processes[i]).node
                < self.nodes.len()
        &&& forall|n: int|
            0 <= n < self.nodes.len() ==> #[trigger] self.total_mem(n) <= u64::MAX
        &&& forall|n: int|
            0 <= n < self.nodes.len() ==> #[trigger] self.total_cpu(n) <= u32::MAX
    }

    /// Whether process `pid` runs on machine `node`.
    pub open spec fn runs(self, node: usize, pid: Pid) -> bool {
        exists|i: int|
            0 <= i < self.processes.len() && (#[trigger] self.processes[i]).node == node
                && self.processes[i].pid == pid
    }

    /// Where process `pid` of machine `node` stands among the processes.
    pub open spec fn position(self, node: usize, pid: Pid) -> int {
        choose|i: int|
            0 <= i < self.processes.len() && (#[trigger] self.processes[i]).node == node
                && self.processes[i].pid == pid
    }

    /// Places `request` on machine `node`.
    pub open spec fn placed(self, node: int, request: Request) -> Cluster {
        Cluster {
            nodes: self.nodes.update(node, self.nodes[node].less(request.resources)),
            pending: self.pending.update(node, self.pending[node].push(request)),
            ..self
        }
    }

    /// Whether `node` is the first machine with room for `process`.
    pub open spec fn first_fit(self, process: Resources, node: int) -> bool {
        &&& 0 <= node < self.nodes.len()
        &&& self.nodes[node].has_room(process)
        &&& forall|n: int| 0 <= n < node ==> !(#[trigger] self.nodes[n]).has_room(process)
    }

    /// Whether some machine has room for `process`.
    pub open spec fn fits(self, process: Resources) -> bool {
        exists|n: int| 0 <= n < self.nodes.len() && (#[trigger] self.nodes[n]).has_room(process)
    }

    /// The first machine with room for `process`.
    pub open spec fn best(self, process: Resources) -> int {
        choose|n: int| self.first_fit(process, n)
    }

    /// Every one of `waiting` in turn is placed on the first machine with room
    /// for it. Gives what the master then knows, where those that found room
    /// went, and those that did not.
    pub open spec fn retried(self, waiting: Seq<Request>) -> (
        Cluster,
        Seq<Action>,
        Seq<Request>,
    )
        decreases waiting.len(),
    {
        if waiting.len() == 0 {
            (self, Seq::empty(), Seq::empty())
        } else {
            let (cluster, actions, left) = self.retried(waiting.drop_last());
            let request = waiting.last();
            if cluster.fits(request.resources) {
                let node = cluster.best(request.resources);
                (
                    cluster.placed(node, request),
                    actions.push(Action::Send { node: node as usize, request }),
                    left,
                )
            } else {
                (cluster, actions, left.push(request))
            }
        }
    }

    /// Whether the master can be told `message` now.
    pub open spec fn accepts(self, message: Message) -> bool {
        match message {
            Message::Spawn { request, force } => force matches Some(node) ==> node
                < self.nodes.len() && self.nodes[node as int].has_room(request.resources),
            Message::Init { node, pid } => node < self.nodes.len() && self.pending[node as int].len()
                > 0 && !self.runs(node, pid),
            Message::Done { node, pid } => self.runs(node, pid),
        }
    }

    /// What the master knows and does after it was told `message`.
    pub open spec fn next(self, message: Message) -> (Cluster, Seq<Action>) {
        match message {
            Message::Spawn { request, force } => {
                if force is Some || self.fits(request.resources) {
                    let node = match force {
                        Some(node) => node as int,
                        None => self.best(request.resources),
                    };
                    (
                        self.placed(node, request),
                        seq![Action::Send { node: node as usize, request }],
                    )
                } else if request.block {
                    (Cluster { blocked: self.blocked.push(request), ..self }, Seq::empty())
                } else {
                    (
                        self,
                        seq![
                            Action::Reply {
                                id: request.id,
                                result: Err(TrySpawnError::NoCapacity),
                            },
                        ],
                    )
                }
            },
            Message::Init { node, pid } => {
                let request = self.pending[node as int][0];
                (
                    Cluster {
                        pending: self.pending.update(
                            node as int,
                            self.pending[node as int].skip(1),
                        ),
                        processes: self.processes.push(
                            Process { node, pid, resources: request.resources },
                        ),
                        ..self
                    },
                    seq![Action::Reply { id: request.id, result: Ok(pid) }],
                )
            },
            Message::Done { node, pid } => {
                let i = self.position(node, pid);
                let freed = Cluster {
                    nodes: self.nodes.update(
                        node as int,
                        self.nodes[node as int].more(self.processes[i].resources),
                    ),
                    processes: self.processes.remove(i),
                    ..self
                };
                let (cluster, actions, left) = freed.retried(self.blocked);
                (Cluster { blocked: left, ..cluster }, actions)
            },
        }
    }
}

proof fn lemma_requests_push(requests: Seq<Request>, request: Request)
    ensures
        requests_mem(requests.push(request)) == requests_mem(requests) + request.resources.mem.0,
        requests_cpu(requests.push(request)) == requests_cpu(requests) + request.resources.cpu.0,
{
    assert(requests.push(request).drop_last() =~= requests);
}

proof fn lemma_requests_skip(requests: Seq<Request>)
    requires
        requests.len() > 0,
    ensures
        requests_mem(requests) == requests[0].resources.mem.0 + requests_mem(requests.skip(1)),
        requests_cpu(requests) == requests[0].resources.cpu.0 + requests_cpu(requests.skip(1)),
    decreases requests.len(),
{
    if requests.len() == 1 {
        assert(requests.drop_last() =~= Seq::<Request>::empty());
        assert(requests.skip(1) =~= Seq::<Request>::empty());
    } else {
        lemma_requests_skip(requests.drop_last());
        assert(requests.drop_last().skip(1) =~= requests.skip(1).drop_last());
    }
}

proof fn lemma_processes_push(processes: Seq<Process>, process: Process, node: int)
    ensures
        processes_mem(processes.push(process), node) == processes_mem(processes, node) + if process.node
            == node {
            process.resources.mem.0 as nat
        } else {
            0
        },
        processes_cpu(processes.push(process), node) == processes_cpu(processes, node) + if process.node
            == node {
            process.resources.cpu.0 as nat
        } else {
            0
        },
{
    assert(processes.push(process).drop_last() =~= processes);
}

proof fn lemma_processes_remove(processes: Seq<Process>, i: int, node: int)
    requires
        0 <= i < processes.len(),
    ensures
        processes_mem(processes, node) == processes_mem(processes.remove(i), node) + if processes[i].node
            == node {
            processes[i].resources.mem.0 as nat
        } else {
            0
        },
        processes_cpu(processes, node) == processes_cpu(processes.remove(i), node) + if processes[i].node
            == node {
            processes[i].resources.cpu.0 as nat
        } else {
            0
        },
    decreases processes.len(),
{
    if i == processes.len() - 1 {
        assert(processes.remove(i) =~= processes.drop_last());
    } else {
        lemma_processes_remove(processes.drop_last(), i, node);
        assert(processes.remove(i).drop_last() =~= processes.drop_last().remove(i));
    }
}

proof fn lemma_best_exists(cluster: Cluster, process: Resources)
    requires
        cluster.fits(process),
    ensures
        cluster.first_fit(process, cluster.best(process)),
{
    let n = choose|n: int|
        0 <= n < cluster.nodes.len() && (#[trigger] cluster.nodes[n]).has_room(process);
    lemma_first_fit_below(cluster, process, n);
}

proof fn lemma_first_fit_below(cluster: Cluster, process: Resources, n: int)
    requires
        0 <= n < cluster.nodes.len(),
        cluster.nodes[n].has_room(process),
    ensures
        exists|m: int| cluster.first_fit(process, m),
    decreases n,
{
    if forall|m: int| 0 <= m < n ==> !(#[trigger] cluster.nodes[m]).has_room(process) {
        assert(cluster.first_fit(process, n));
    } else {
        let m = choose|m: int| 0 <= m < n && (#[trigger] cluster.nodes[m]).has_room(process);
        lemma_first_fit_below(cluster, process, m);
    }
}

proof fn lemma_first_fit_unique(cluster: Cluster, process: Resources, n: int)
    requires
        cluster.first_fit(process, n),
    ensures
        cluster.fits(process),
        cluster.best(process) == n,
{
    lemma_best_exists(cluster, process);
}

/// A machine with nothing left can still be placed on by a request for nothing;
/// otherwise a placement only moves resources from what is left to what is
/// pending.
proof fn lemma_placed(cluster: Cluster, node: int, request: Request)
    requires
        cluster.wf(),
        0 <= node < cluster.nodes.len(),
        cluster.nodes[node].has_room(request.resources),
    ensures
        cluster.placed(node, request).wf(),
        forall|n: int|
            0 <= n < cluster.nodes.len() ==> #[trigger] cluster.placed(node, request).total_mem(n)
                == cluster.total_mem(n),
        forall|n: int|
            0 <= n < cluster.nodes.len() ==> #[trigger] cluster.placed(node, request).total_cpu(n)
                == cluster.total_cpu(n),
{
    lemma_requests_push(cluster.pending[node], request);
    let after = cluster.placed(node, request);
    assert forall|n: int| 0 <= n < cluster.nodes.len() implies #[trigger] after.total_mem(n)
        == cluster.total_mem(n) && after.total_cpu(n) == cluster.total_cpu(n) by {
        if n != node {
            assert(after.pending[n] == cluster.pending[n]);
            assert(after.nodes[n] == cluster.nodes[n]);
        }
    }
    assert forall|n: int| 0 <= n < cluster.nodes.len() implies #[trigger] after.total_cpu(n)
        == cluster.total_cpu(n) by {
        assert(after.total_mem(n) == cluster.total_mem(n));
    }
    assert forall|n: int| 0 <= n < after.nodes.len() implies #[trigger] after.total_mem(n)
        <= u64::MAX by {
        assert(cluster.total_mem(n) <= u64::MAX);
    }
    assert forall|n: int| 0 <= n < after.nodes.len() implies #[trigger] after.total_cpu(n)
        <= u32::MAX by {
        assert(cluster.total_cpu(n) <= u32::MAX);
    }
}

/// Retrying keeps the cluster well-formed and every machine's total.
proof fn lemma_retried(cluster: Cluster, waiting: Seq<Request>)
    requires
        cluster.wf(),
    ensures
        cluster.retried(waiting).0.wf(),
        cluster.retried(waiting).0.nodes.len() == cluster.nodes.len(),
        cluster.retried(waiting).0.blocked == cluster.blocked,
        cluster.retried(waiting).0.processes == cluster.processes,
        cluster.retried(waiting).1.len() + cluster.retried(waiting).2.len() == waiting.len(),
        forall|n: int|
            0 <= n < cluster.nodes.len() ==> #[trigger] cluster.retried(waiting).0.total_mem(n)
                == cluster.total_mem(n),
        forall|n: int|
            0 <= n < cluster.nodes.len() ==> #[trigger] cluster.retried(waiting).0.total_cpu(n)
                == cluster.total_cpu(n),
    decreases waiting.len(),
{
    if waiting.len() > 0 {
        lemma_retried(cluster, waiting.drop_last());
        let mid = cluster.retried(waiting.drop_last()).0;
        let request = waiting.last();
        if mid.fits(request.resources) {
            lemma_best_exists(mid, request.resources);
            lemma_placed(mid, mid.best(request.resources), request);
        }
    }
}

/// The cluster after a process is gone, before waiting requests are retried.
pub open spec fn freed(cluster: Cluster, node: usize, pid: Pid) -> Cluster {
    let i = cluster.position(node, pid);
    Cluster {
        nodes: cluster.nodes.update(
            node as int,
            cluster.nodes[node as int].more(cluster.processes[i].resources),
        ),
        processes: cluster.processes.remove(i),
        ..cluster
    }
}

proof fn lemma_freed(cluster: Cluster, node: usize, pid: Pid)
    requires
        cluster.wf(),
        cluster.runs(node, pid),
    ensures
        freed(cluster, node, pid).wf(),
        ({
            let p = cluster.processes[cluster.position(node, pid)].resources;
            &&& cluster.nodes[node as int].mem.0 + p.mem.0 <= u64::MAX
            &&& cluster.nodes[node as int].cpu.0 + p.cpu.0 <= u32::MAX
        }),
        forall|n: int|
            0 <= n < cluster.nodes.len() ==> #[trigger] freed(cluster, node, pid).total_mem(n)
                == cluster.total_mem(n),
        forall|n: int|
            0 <= n < cluster.nodes.len() ==> #[trigger] freed(cluster, node, pid).total_cpu(n)
                == cluster.total_cpu(n),
{
    let i = cluster.position(node, pid);
    let after = freed(cluster, node, pid);
    assert(cluster.total_mem(node as int) <= u64::MAX);
    assert(cluster.total_cpu(node as int) <= u32::MAX);
    assert forall|n: int| 0 <= n < cluster.nodes.len() implies #[trigger] after.total_mem(n)
        == cluster.total_mem(n) && after.total_cpu(n) == cluster.total_cpu(n) by {
        lemma_processes_remove(cluster.processes, i, n);
        lemma_processes_remove(cluster.processes, i, node as int);
        if n != node {
            assert(after.nodes[n] == cluster.nodes[n]);
        }
    }
    lemma_processes_remove(cluster.processes, i, node as int);
    assert forall|n: int| 0 <= n < cluster.nodes.len() implies #[trigger] after.total_cpu(n)
        == cluster.total_cpu(n) by {
        assert(after.total_mem(n) == cluster.total_mem(n));
    }
    assert forall|n: int| 0 <= n < after.nodes.len() implies #[trigger] after.total_mem(n)
        <= u64::MAX by {
        assert(cluster.total_mem(n) <= u64::MAX);
    }
    assert forall|n: int| 0 <= n < after.nodes.len() implies #[trigger] after.total_cpu(n)
        <= u32::MAX by {
        assert(cluster.total_cpu(n) <= u32::MAX);
    }
    assert forall|a: int, b: int|
        #![trigger after.processes[a], after.processes[b]]
        0 <= a < b < after.processes.len() implies after.processes[a].node
        != after.processes[b].node || after.processes[a].pid != after.processes[b].pid by {
        let a1 = if a < i { a } else { a + 1 };
        let b1 = if b < i { b } else { b + 1 };
        assert(after.processes[a] == cluster.processes[a1]);
        assert(after.processes[b] == cluster.processes[b1]);
    }
    assert forall|a: int| 0 <= a < after.processes.len() implies (#[trigger] after.processes[a]).node
        < after.nodes.len() by {
        let a1 = if a < i { a } else { a + 1 };
        assert(after.processes[a] == cluster.processes[a1]);
    }
}

/// Whatever the master is told, its knowledge stays consistent, and what each
/// machine has left, has pending and has in use keeps adding up to the same.
pub proof fn law_resources_are_conserved(cluster: Cluster, message: Message)
    requires
        cluster.wf(),
        cluster.accepts(message),
    ensures
        cluster.next(message).0.wf(),
        cluster.next(message).0.nodes.len() == cluster.nodes.len(),
        forall|n: int|
            0 <= n < cluster.nodes.len() ==> #[trigger] cluster.next(message).0.total_mem(n)
                == cluster.total_mem(n),
        forall|n: int|
            0 <= n < cluster.nodes.len() ==> #[trigger] cluster.next(message).0.total_cpu(n)
                == cluster.total_cpu(n),
{
    let after = cluster.next(message).0;
    match message {
        Message::Spawn { request, force } => {
            if force is Some {
                lemma_placed(cluster, force.unwrap() as int, request);
            } else if cluster.fits(request.resources) {
                lemma_best_exists(cluster, request.resources);
                lemma_placed(cluster, cluster.best(request.resources), request);
            } else {
                assert forall|n: int| 0 <= n < cluster.nodes.len() implies #[trigger] after.total_mem(n)
                    == cluster.total_mem(n) && after.total_cpu(n) == cluster.total_cpu(n) by {}
                lemma_same_totals(cluster, after);
            }
        },
        Message::Init { node, pid } => {
            let request = cluster.pending[node as int][0];
            let process = Process { node, pid, resources: request.resources };
            lemma_requests_skip(cluster.pending[node as int]);
            assert forall|n: int| 0 <= n < cluster.nodes.len() implies #[trigger] after.total_mem(n)
                == cluster.total_mem(n) && after.total_cpu(n) == cluster.total_cpu(n) by {
                lemma_processes_push(cluster.processes, process, n);
                if n != node {
                    assert(after.pending[n] == cluster.pending[n]);
                }
            }
            assert forall|i: int, j: int|
                #![trigger after.processes[i], after.processes[j]]
                0 <= i < j < after.processes.len() implies after.processes[i].node
                != after.processes[j].node || after.processes[i].pid
                != after.processes[j].pid by {
                assert(after.processes[i] == cluster.processes[i]);
                if j < cluster.processes.len() {
                    assert(after.processes[j] == cluster.processes[j]);
                }
            }
            lemma_same_totals(cluster, after);
        },
        Message::Done { node, pid } => {
            lemma_freed(cluster, node, pid);
            let mid = freed(cluster, node, pid);
            lemma_retried(mid, cluster.blocked);
            let end = mid.retried(cluster.blocked).0;
            assert forall|n: int| 0 <= n < cluster.nodes.len() implies #[trigger] after.total_mem(n)
                == cluster.total_mem(n) && after.total_cpu(n) == cluster.total_cpu(n) by {
                assert(after.total_mem(n) == end.total_mem(n));
                assert(after.total_cpu(n) == end.total_cpu(n));
                assert(mid.total_mem(n) == cluster.total_mem(n));
                assert(mid.total_cpu(n) == cluster.total_cpu(n));
            }
            lemma_same_totals(cluster, after);
        },
    }
}

proof fn lemma_same_totals(before: Cluster, after: Cluster)
    requires
        before.wf(),
        after.nodes.len() == before.nodes.len(),
        forall|n: int|
            0 <= n < before.nodes.len() ==> #[trigger] after.total_mem(n) == before.total_mem(n)
                && after.total_cpu(n) == before.total_cpu(n),
    ensures
        forall|n: int| 0 <= n < after.nodes.len() ==> #[trigger] after.total_mem(n) <= u64::MAX,
        forall|n: int| 0 <= n < after.nodes.len() ==> #[trigger] after.total_cpu(n) <= u32::MAX,
        forall|n: int|
            0 <= n < before.nodes.len() ==> #[trigger] after.total_cpu(n) == before.total_cpu(n),
{
    assert forall|n: int| 0 <= n < after.nodes.len() implies #[trigger] after.total_mem(n)
        <= u64::MAX by {
        assert(before.total_mem(n) <= u64::MAX);
    }
    assert forall|n: int| 0 <= n < after.nodes.len() implies #[trigger] after.total_cpu(n)
        <= u32::MAX && after.total_cpu(n) == before.total_cpu(n) by {
        assert(after.total_mem(n) == before.total_mem(n));
        assert(before.total_cpu(n) <= u32::MAX);
    }
}

/// A request keeps waiting only as long as no machine has room for it: once the
/// waiting requests have been retried, nothing that still waits fits anywhere,
/// and what still waits keeps its order.
pub proof fn law_blocked_keep_their_order(cluster: Cluster, waiting: Seq<Request>)
    requires
        cluster.wf(),
    ensures
        forall|i: int|
            0 <= i < cluster.retried(waiting).2.len() ==> waiting.contains(
                #[trigger] cluster.retried(waiting).2[i],
            ) && !cluster.retried(waiting).0.fits(cluster.retried(waiting).2[i].resources),
        in_order(cluster.retried(waiting).2, waiting),
    decreases waiting.len(),
{
    if waiting.len() > 0 {
        let (mid, actions, left) = cluster.retried(waiting.drop_last());
        let (end, end_actions, end_left) = cluster.retried(waiting);
        let request = waiting.last();
        law_blocked_keep_their_order(cluster, waiting.drop_last());
        lemma_retried(cluster, waiting.drop_last());
        if mid.fits(request.resources) {
            lemma_best_exists(mid, request.resources);
        } else {
            assert(left.push(request).drop_last() =~= left);
        }
        assert forall|i: int| 0 <= i < end_left.len() implies waiting.contains(
            #[trigger] end_left[i],
        ) && !end.fits(end_left[i].resources) by {
            if i < left.len() {
                assert(end_left[i] == left[i]);
                let j = choose|j: int|
                    0 <= j < waiting.drop_last().len() && waiting.drop_last()[j] == left[i];
                assert(waiting[j] == left[i]);
                assert(!mid.fits(left[i].resources));
                assert forall|n: int| 0 <= n < end.nodes.len() implies !(
                #[trigger] end.nodes[n]).has_room(left[i].resources) by {
                    assert(!mid.nodes[n].has_room(left[i].resources));
                }
            } else {
                assert(waiting[waiting.len() - 1] == request);
            }
        }
    }
}

/// Whether `part` is what is left of `whole` when some of its items are taken
/// out.
pub open spec fn in_order(part: Seq<Request>, whole: Seq<Request>) -> bool
    decreases whole.len(),
{
    if whole.len() == 0 {
        part.len() == 0
    } else {
        ||| in_order(part, whole.drop_last())
        ||| part.len() > 0 && part.last() == whole.last() && in_order(
            part.drop_last(),
            whole.drop_last(),
        )
    }
}

/// The master's knowledge of its machines and of what runs on them.
pub struct Scheduler {
    nodes: Vec<Node>,
    pending: Vec<Vec<Request>>,
    processes: Vec<Process>,
    blocked: Vec<Request>,
}

impl View for Scheduler {
    type V = Cluster;

    closed spec fn view(&self) -> Cluster {
        Cluster {
            nodes: self.nodes@,
            pending: Seq::new(self.pending@.len(), |i: int| self.pending@[i]@),
            processes: self.processes@,
            blocked: self.blocked@,
        }
    }
}

impl Scheduler {
    /// Machines on which nothing runs.
    pub fn new(nodes: Vec<Node>) -> (r: Scheduler)
        ensures
            r@.wf(),
            r@ == (Cluster {
                nodes: nodes@,
                pending: Seq::new(nodes@.len(), |i: int| Seq::empty()),
                processes: Seq::empty(),
                blocked: Seq::empty(),
            }),
    {
        let mut pending: Vec<Vec<Request>> = Vec::new();
        for i in 0..nodes.len()
            invariant
                pending.len() == i,
                forall|j: int| 0 <= j < i ==> (#[trigger] pending@[j])@ == Seq::<Request>::empty(),
        {
            pending.push(Vec::new());
        }
        let r = Scheduler { nodes, pending, processes: Vec::new(), blocked: Vec::new() };
        assert(r@.pending =~= Seq::new(nodes@.len(), |i: int| Seq::<Request>::empty()));
        r
    }

    /// Whether the master can be told `message` now.
    pub fn accepts(&self, message: &Message) -> (r: bool)
        requires
            self@.wf(),
        ensures
            r == self@.accepts(*message),
    {
        match *message {
            Message::Spawn { request, force } => match force {
                Some(node) => node < self.nodes.len() && self.nodes[node].fits(&request.resources),
                None => true,
            },
            Message::Init { node, pid } => node < self.nodes.len() && self.pending[node].len() > 0
                && self.find(node, pid).is_none(),
            Message::Done { node, pid } => self.find(node, pid).is_some(),
        }
    }

    /// The first machine with room for `process`.
    fn first_fit(&self, process: &Resources) -> (r: Option<usize>)
        ensures
            match r {
                Some(n) => self@.first_fit(*process, n as int),
                None => !self@.fits(*process),
            },
    {
        for n in 0..self.nodes.len()
            invariant
                forall|m: int| 0 <= m < n ==> !(#[trigger] self@.nodes[m]).has_room(*process),
        {
            if self.nodes[n].fits(process) {
                assert(self@.nodes[n as int].has_room(*process));
                return Some(n);
            }
            assert(!self@.nodes[n as int].has_room(*process));
        }
        None
    }

    /// Where process `pid` of machine `node` stands among the processes.
    fn find(&self, node: usize, pid: Pid) -> (r: Option<usize>)
        requires
            self@.wf(),
        ensures
            match r {
                Some(i) => self@.runs(node, pid) && i == self@.position(node, pid),
                None => !self@.runs(node, pid),
            },
    {
        for i in 0..self.processes.len()
            invariant
                self@.wf(),
                forall|j: int|
                    0 <= j < i ==> (#[trigger] self@.processes[j]).node != node
                        || self@.processes[j].pid != pid,
        {
            let process = self.processes[i];
            assert(process == self@.processes[i as int]);
            if process.node == node && process.pid == pid {
                assert(self@.runs(node, pid));
                let ghost at = self@.position(node, pid);
                assert(self@.processes[at].node == node && self@.processes[at].pid == pid);
                return Some(i);
            }
        }
        None
    }

    /// Places `request` on machine `node`.
    fn place(&mut self, node: usize, request: Request)
        requires
            old(self)@.wf(),
            node < old(self)@.nodes.len(),
            old(self)@.nodes[node as int].has_room(request.resources),
        ensures
            final(self)@.wf(),
            final(self)@ == old(self)@.placed(node as int, request),
    {
        proof {
            lemma_placed(self@, node as int, request);
        }
        let mut left = self.nodes[node];
        left.allocate(&request.resources);
        self.nodes.set(node, left);
        self.pending[node].push(request);
        assert(self@.pending =~= old(self)@.pending.update(
            node as int,
            old(self)@.pending[node as int].push(request),
        ));
    }

    /// Takes in `message` and says what is to be done.
    pub fn handle(&mut self, message: Message) -> (actions: Vec<Action>)
        requires
            old(self)@.wf(),
            old(self)@.accepts(message),
        ensures
            final(self)@.wf(),
            final(self)@ == old(self)@.next(message).0,
            actions@ == old(self)@.next(message).1,
    {
        proof {
            law_resources_are_conserved(self@, message);
        }
        match message {
            Message::Spawn { request, force } => self.handle_spawn(request, force),
            Message::Init { node, pid } => self.handle_init(node, pid),
            Message::Done { node, pid } => self.handle_done(node, pid),
        }
    }

    fn handle_spawn(&mut self, request: Request, force: Option<usize>) -> (actions: Vec<Action>)
        requires
            old(self)@.wf(),
            old(self)@.accepts(Message::Spawn { request, force }),
        ensures
            final(self)@ == old(self)@.next(Message::Spawn { request, force }).0,
            actions@ == old(self)@.next(Message::Spawn { request, force }).1,
    {
        let mut actions: Vec<Action> = Vec::new();
        let node = match force {
            Some(node) => Some(node),
            None => self.first_fit(&request.resources),
        };
        match node {
            Some(node) => {
                proof {
                    if force is None {
                        lemma_first_fit_unique(self@, request.resources, node as int);
                    }
                }
                self.place(node, request);
                actions.push(Action::Send { node, request });
            },
            None => {
                if request.block {
                    self.blocked.push(request);
                    assert(self@.pending =~= old(self)@.pending);
                } else {
                    actions.push(
                        Action::Reply { id: request.id, result: Err(TrySpawnError::NoCapacity) },
                    );
                }
            },
        }
        actions
    }

    fn handle_init(&mut self, node: usize, pid: Pid) -> (actions: Vec<Action>)
        requires
            old(self)@.wf(),
            old(self)@.accepts(Message::Init { node, pid }),
        ensures
            final(self)@ == old(self)@.next(Message::Init { node, pid }).0,
            actions@ == old(self)@.next(Message::Init { node, pid }).1,
    {
        let request = self.pending[node].remove(0);
        self.processes.push(Process { node, pid, resources: request.resources });
        assert(self@.pending =~= old(self)@.pending.update(
            node as int,
            old(self)@.pending[node as int].skip(1),
        ));
        let mut actions: Vec<Action> = Vec::new();
        actions.push(Action::Reply { id: request.id, result: Ok(pid) });
        actions
    }

    fn handle_done(&mut self, node: usize, pid: Pid) -> (actions: Vec<Action>)
        requires
            old(self)@.wf(),
            old(self)@.accepts(Message::Done { node, pid }),
        ensures
            final(self)@ == old(self)@.next(Message::Done { node, pid }).0,
            actions@ == old(self)@.next(Message::Done { node, pid }).1,
    {
        let i: usize = self.find(node, pid).unwrap();
        proof {
            lemma_freed(self@, node, pid);
        }
        let process = self.processes.remove(i);
        let mut left = self.nodes[node];
        left.free(&process.resources);
        self.nodes.set(node, left);
        let mut waiting: Vec<Request> = Vec::new();
        core::mem::swap(&mut waiting, &mut self.blocked);
        let ghost start = Cluster { blocked: Seq::empty(), ..freed(old(self)@, node, pid) };
        assert(self@ =~= start);
        proof {
            assert forall|n: int| 0 <= n < start.nodes.len() implies #[trigger] start.total_mem(n)
                == freed(old(self)@, node, pid).total_mem(n) && start.total_cpu(n) == freed(
                old(self)@,
                node,
                pid,
            ).total_cpu(n) by {}
            lemma_same_totals(freed(old(self)@, node, pid), start);
        }
        let mut actions: Vec<Action> = Vec::new();
        let mut kept: Vec<Request> = Vec::new();
        for k in 0..waiting.len()
            invariant
                self@.wf(),
                start.wf(),
                self@ == start.retried(waiting@.take(k as int)).0,
                actions@ == start.retried(waiting@.take(k as int)).1,
                kept@ == start.retried(waiting@.take(k as int)).2,
        {
            let request = waiting[k];
            assert(waiting@.take(k + 1).drop_last() =~= waiting@.take(k as int));
            match self.first_fit(&request.resources) {
                Some(n) => {
                    proof {
                        lemma_first_fit_unique(self@, request.resources, n as int);
                    }
                    self.place(n, request);
                    actions.push(Action::Send { node: n, request });
                },
                None => {
                    kept.push(request);
                },
            }
        }
        assert(waiting@.take(waiting.len() as int) =~= waiting@);
        proof {
            lemma_retried_ignores_blocked(freed(old(self)@, node, pid), Seq::empty(), waiting@);
        }
        let ghost before = self@;
        self.blocked = kept;
        assert(self@ =~= Cluster { blocked: kept@, ..before });
        actions
    }
}

proof fn lemma_retried_ignores_blocked(
    cluster: Cluster,
    blocked: Seq<Request>,
    waiting: Seq<Request>,
)
    ensures
        ({
            let other = Cluster { blocked, ..cluster };
            let (a, b, c) = cluster.retried(waiting);
            other.retried(waiting) == (Cluster { blocked, ..a }, b, c)
        }),
    decreases waiting.len(),
{
    let other = Cluster { blocked, ..cluster };
    if waiting.len() > 0 {
        lemma_retried_ignores_blocked(cluster, blocked, waiting.drop_last());
        let mid = cluster.retried(waiting.drop_last()).0;
        let mid_other = other.retried(waiting.drop_last()).0;
        let process = waiting.last().resources;
        assert(mid.fits(process) == mid_other.fits(process)) by {
            assert(mid.nodes == mid_other.nodes);
        }
        if mid.fits(process) {
            lemma_best_exists(mid, process);
            lemma_best_exists(mid_other, process);
            assert(mid_other.first_fit(process, mid.best(process)));
            lemma_first_fit_unique(mid_other, process, mid.best(process));
        }
    }
}

/// The requests that some actions send to machine `node`, in order.
pub open spec fn sent_to(actions: Seq<Action>, node: int) -> Seq<Request>
    decreases actions.len(),
{
    if actions.len() == 0 {
        Seq::empty()
    } else {
        let before = sent_to(actions.drop_last(), node);
        match actions.last() {
            Action::Send { node: n, request } if n == node => before.push(request),
            _ => before,
        }
    }
}

/// What the master knows after it was told several messages.
pub open spec fn after_all(cluster: Cluster, messages: Seq<Message>) -> Cluster
    decreases messages.len(),
{
    if messages.len() == 0 {
        cluster
    } else {
        after_all(cluster, messages.drop_last()).next(messages.last()).0
    }
}

/// Whether the master can be told all these messages one after another.
pub open spec fn accepts_all(cluster: Cluster, messages: Seq<Message>) -> bool
    decreases messages.len(),
{
    messages.len() > 0 ==> accepts_all(cluster, messages.drop_last()) && after_all(
        cluster,
        messages.drop_last(),
    ).accepts(messages.last())
}

/// The requests that machine `node` is sent in a run, in order.
pub open spec fn sent_in(cluster: Cluster, messages: Seq<Message>, node: int) -> Seq<Request>
    decreases messages.len(),
{
    if messages.len() == 0 {
        Seq::empty()
    } else {
        sent_in(cluster, messages.drop_last(), node) + sent_to(
            after_all(cluster, messages.drop_last()).next(messages.last()).1,
            node,
        )
    }
}

/// How many processes machine `node` reports started in a run.
pub open spec fn started_in(messages: Seq<Message>, node: int) -> nat
    decreases messages.len(),
{
    if messages.len() == 0 {
        0
    } else {
        started_in(messages.drop_last(), node) + match messages.last() {
            Message::Init { node: n, .. } if n == node => 1nat,
            _ => 0,
        }
    }
}

proof fn lemma_sent_to_one(action: Action, node: int)
    ensures
        sent_to(seq![action], node) == (match action {
            Action::Send { node: n, request } if n == node => seq![request],
            _ => Seq::empty(),
        }),
{
    assert(seq![action].drop_last() =~= Seq::<Action>::empty());
    assert(sent_to(seq![action].drop_last(), node) =~= Seq::<Request>::empty());
    assert(Seq::<Request>::empty().push(match action {
        Action::Send { request, .. } => request,
        _ => arbitrary(),
    }) =~= seq![match action {
        Action::Send { request, .. } => request,
        _ => arbitrary(),
    }]);
}

proof fn lemma_retried_pending(cluster: Cluster, waiting: Seq<Request>, node: int)
    requires
        cluster.wf(),
        cluster.nodes.len() <= usize::MAX,
        0 <= node < cluster.nodes.len(),
    ensures
        cluster.retried(waiting).0.pending[node] == cluster.pending[node] + sent_to(
            cluster.retried(waiting).1,
            node,
        ),
    decreases waiting.len(),
{
    if waiting.len() == 0 {
        assert(cluster.pending[node] + sent_to(Seq::<Action>::empty(), node)
            =~= cluster.pending[node]);
    } else {
        lemma_retried_pending(cluster, waiting.drop_last(), node);
        lemma_retried(cluster, waiting.drop_last());
        let (mid, actions, left) = cluster.retried(waiting.drop_last());
        let request = waiting.last();
        if mid.fits(request.resources) {
            lemma_best_exists(mid, request.resources);
            let n = mid.best(request.resources);
            let more = actions.push(Action::Send { node: n as usize, request });
            assert(more.drop_last() =~= actions);
            assert(cluster.retried(waiting).0.pending[node] =~= cluster.pending[node] + sent_to(
                more,
                node,
            ));
        }
    }
}

proof fn lemma_step_pending(cluster: Cluster, message: Message, node: int)
    requires
        cluster.wf(),
        cluster.nodes.len() <= usize::MAX,
        cluster.accepts(message),
        0 <= node < cluster.nodes.len(),
    ensures
        ({
            let (after, actions) = cluster.next(message);
            match message {
                Message::Init { node: n, .. } if n == node => cluster.pending[node]
                    == seq![cluster.pending[node][0]] + after.pending[node] && sent_to(actions, node)
                    == Seq::<Request>::empty(),
                _ => after.pending[node] == cluster.pending[node] + sent_to(actions, node),
            }
        }),
{
    let (after, actions) = cluster.next(message);
    match message {
        Message::Spawn { request, force } => {
            if force is Some || cluster.fits(request.resources) {
                if force is None {
                    lemma_best_exists(cluster, request.resources);
                }
                lemma_sent_to_one(actions[0], node);
                assert(actions =~= seq![actions[0]]);
                assert(after.pending[node] =~= cluster.pending[node] + sent_to(actions, node));
            } else if request.block {
                assert(after.pending[node] =~= cluster.pending[node] + sent_to(actions, node));
            } else {
                lemma_sent_to_one(actions[0], node);
                assert(actions =~= seq![actions[0]]);
                assert(after.pending[node] =~= cluster.pending[node] + sent_to(actions, node));
            }
        },
        Message::Init { node: n, pid } => {
            lemma_sent_to_one(actions[0], node);
            assert(actions =~= seq![actions[0]]);
            if n == node {
                assert(cluster.pending[node] =~= seq![cluster.pending[node][0]]
                    + after.pending[node]);
            } else {
                assert(after.pending[node] =~= cluster.pending[node] + sent_to(actions, node));
            }
        },
        Message::Done { node: n, pid } => {
            lemma_freed(cluster, n, pid);
            lemma_retried_pending(freed(cluster, n, pid), cluster.blocked, node);
        },
    }
}

proof fn lemma_run_pending(cluster: Cluster, messages: Seq<Message>, node: int)
    requires
        cluster.wf(),
        cluster.nodes.len() <= usize::MAX,
        accepts_all(cluster, messages),
        0 <= node < cluster.nodes.len(),
        cluster.pending[node].len() == 0,
    ensures
        after_all(cluster, messages).wf(),
        after_all(cluster, messages).nodes.len() == cluster.nodes.len(),
        started_in(messages, node) <= sent_in(cluster, messages, node).len(),
        after_all(cluster, messages).pending[node] == sent_in(cluster, messages, node).skip(
            started_in(messages, node) as int,
        ),
    decreases messages.len(),
{
    if messages.len() == 0 {
        assert(after_all(cluster, messages).pending[node] =~= sent_in(
            cluster,
            messages,
            node,
        ).skip(0));
    } else {
        let first = messages.drop_last();
        lemma_run_pending(cluster, first, node);
        let mid = after_all(cluster, first);
        law_resources_are_conserved(mid, messages.last());
        lemma_step_pending(mid, messages.last(), node);
        let sent = sent_in(cluster, first, node);
        let k = started_in(first, node) as int;
        let more = sent_to(mid.next(messages.last()).1, node);
        let all = sent_in(cluster, messages, node);
        let pending = after_all(cluster, messages).pending[node];
        match messages.last() {
            Message::Init { node: n, .. } if n == node => {
                assert(all =~= sent);
                assert(sent.skip(k) == seq![mid.pending[node][0]] + pending);
                assert(pending =~= sent.skip(k).skip(1));
                assert(pending =~= all.skip(k + 1));
            },
            _ => {
                assert(pending =~= all.skip(k));
            },
        }
    }
}

/// Whoever asked first is answered first: in any run, the `k`th process that a
/// machine reports started is the answer to the `k`th request that the machine
/// was sent, and counts for what that request asked for.
pub proof fn law_first_sent_first_answered(
    cluster: Cluster,
    messages: Seq<Message>,
    node: usize,
    pid: Pid,
)
    requires
        cluster.wf(),
        cluster.nodes.len() <= usize::MAX,
        node < cluster.nodes.len(),
        cluster.pending[node as int].len() == 0,
        accepts_all(cluster, messages),
        after_all(cluster, messages).accepts(Message::Init { node, pid }),
    ensures
        ({
            let sent = sent_in(cluster, messages, node as int);
            let k = started_in(messages, node as int);
            let before = after_all(cluster, messages);
            let (after, actions) = before.next(Message::Init { node, pid });
            &&& k < sent.len()
            &&& actions == seq![Action::Reply { id: sent[k as int].id, result: Ok(pid) }]
            &&& after.processes.len() == before.processes.len() + 1
            &&& after.processes.contains(
                Process { node, pid, resources: sent[k as int].resources },
            )
            &&& forall|process: Process|
                before.processes.contains(process) ==> #[trigger] after.processes.contains(process)
            &&& after.nodes == before.nodes
            &&& after.blocked == before.blocked
        }),
{
    lemma_run_pending(cluster, messages, node as int);
    let sent = sent_in(cluster, messages, node as int);
    let k = started_in(messages, node as int) as int;
    let before = after_all(cluster, messages);
    let (after, actions) = before.next(Message::Init { node, pid });
    assert(before.pending[node as int][0] == sent.skip(k)[0]);
    assert(sent.skip(k)[0] == sent[k]);
    assert(after.processes[before.processes.len() as int] == (Process {
        node,
        pid,
        resources: sent[k].resources,
    }));
    assert forall|process: Process|
        before.processes.contains(process) implies #[trigger] after.processes.contains(process) by {
        let i = before.processes.index_of(process);
        assert(after.processes[i] == process);
    }
}

/// A request goes to a machine that has what it asks for, the first such if none
/// is named, and to no other; what it asks for is taken from that machine and
/// from no other.
pub proof fn law_a_request_goes_where_there_is_room(
    cluster: Cluster,
    request: Request,
    force: Option<usize>,
    n: usize,
)
    requires
        cluster.nodes.len() <= usize::MAX,
        cluster.accepts(Message::Spawn { request, force }),
        n < cluster.nodes.len(),
        match force {
            Some(node) => n == node,
            None => request.resources.mem.0 <= cluster.nodes[n as int].mem.0
                && request.resources.cpu.0 <= cluster.nodes[n as int].cpu.0 && forall|m: int|
                0 <= m < n ==> request.resources.mem.0 > (#[trigger] cluster.nodes[m]).mem.0
                    || request.resources.cpu.0 > cluster.nodes[m].cpu.0,
        },
    ensures
        ({
            let (after, actions) = cluster.next(Message::Spawn { request, force });
            &&& actions == seq![Action::Send { node: n, request }]
            &&& after.nodes[n as int].mem.0 + request.resources.mem.0
                == cluster.nodes[n as int].mem.0
            &&& after.nodes[n as int].cpu.0 + request.resources.cpu.0
                == cluster.nodes[n as int].cpu.0
            &&& forall|m: int|
                0 <= m < cluster.nodes.len() && m != n ==> #[trigger] after.nodes[m]
                    == cluster.nodes[m]
            &&& after.processes == cluster.processes
            &&& after.blocked == cluster.blocked
        }),
{
    if force is None {
        assert(cluster.nodes[n as int].has_room(request.resources));
        assert forall|m: int| 0 <= m < n implies !(#[trigger] cluster.nodes[m]).has_room(
            request.resources,
        ) by {}
        lemma_first_fit_unique(cluster, request.resources, n as int);
    }
}

/// A request that no machine has room for is refused at once, or waits behind all
/// that wait already if it wants to; either way nothing is taken from any machine.
pub proof fn law_without_room_refused_or_waits(cluster: Cluster, request: Request)
    requires
        forall|m: int|
            0 <= m < cluster.nodes.len() ==> request.resources.mem.0 > (
            #[trigger] cluster.nodes[m]).mem.0 || request.resources.cpu.0
                > cluster.nodes[m].cpu.0,
    ensures
        ({
            let (after, actions) = cluster.next(Message::Spawn { request, force: None });
            &&& after.nodes == cluster.nodes
            &&& after.pending == cluster.pending
            &&& after.processes == cluster.processes
            &&& request.block ==> actions.len() == 0 && after.blocked.len()
                == cluster.blocked.len() + 1 && after.blocked.last() == request
                && after.blocked.drop_last() == cluster.blocked
            &&& !request.block ==> after.blocked == cluster.blocked && actions.len() == 1
                && actions[0] == (Action::Reply {
                id: request.id,
                result: Err(TrySpawnError::NoCapacity),
            })
        }),
{
    assert(!cluster.fits(request.resources)) by {
        assert forall|m: int| 0 <= m < cluster.nodes.len() implies !(
        #[trigger] cluster.nodes[m]).has_room(request.resources) by {}
    }
    assert(cluster.blocked.push(request).drop_last() =~= cluster.blocked);
}

proof fn lemma_retried_sends(cluster: Cluster, waiting: Seq<Request>)
    requires
        cluster.wf(),
        cluster.nodes.len() <= usize::MAX,
    ensures
        forall|i: int|
            0 <= i < cluster.retried(waiting).1.len() ==> {
                &&& #[trigger] cluster.retried(waiting).1[i] is Send
                &&& cluster.retried(waiting).1[i]->node < cluster.nodes.len()
            },
        waiting.to_multiset() == cluster.retried(waiting).2.to_multiset().add(
            requests_of(cluster.retried(waiting).1).to_multiset(),
        ),
    decreases waiting.len(),
{
    broadcast use vstd::seq_lib::group_to_multiset_ensures;

    if waiting.len() == 0 {
        assert(waiting =~= Seq::<Request>::empty());
        assert(waiting.to_multiset() =~= cluster.retried(waiting).2.to_multiset().add(
            requests_of(cluster.retried(waiting).1).to_multiset(),
        ));
    } else {
        let first = waiting.drop_last();
        let request = waiting.last();
        lemma_retried_sends(cluster, first);
        lemma_retried(cluster, first);
        let (mid, actions, left) = cluster.retried(first);
        assert(waiting =~= first.push(request));
        if mid.fits(request.resources) {
            lemma_best_exists(mid, request.resources);
            let n = mid.best(request.resources);
            let more = actions.push(Action::Send { node: n as usize, request });
            assert(more.drop_last() =~= actions);
            assert(requests_of(more) == requests_of(actions).push(request));
            assert(waiting.to_multiset() =~= left.to_multiset().add(
                requests_of(more).to_multiset(),
            ));
        } else {
            assert(waiting.to_multiset() =~= left.push(request).to_multiset().add(
                requests_of(actions).to_multiset(),
            ));
        }
    }
}

/// The requests that some actions send, in order.
pub open spec fn requests_of(actions: Seq<Action>) -> Seq<Request>
    decreases actions.len(),
{
    if actions.len() == 0 {
        Seq::empty()
    } else {
        match actions.last() {
            Action::Send { request, .. } => requests_of(actions.drop_last()).push(request),
            _ => requests_of(actions.drop_last()),
        }
    }
}

/// Once a process has ended, it and no other is forgotten. Of those that waited
/// for room each is sent once or still waits; none is answered, and none that
/// still waits would fit on any machine.
pub proof fn law_the_end_of_a_process_makes_room(cluster: Cluster, node: usize, pid: Pid)
    requires
        cluster.wf(),
        cluster.nodes.len() <= usize::MAX,
        cluster.accepts(Message::Done { node, pid }),
    ensures
        ({
            let (after, actions) = cluster.next(Message::Done { node, pid });
            &&& forall|process: Process|
                #[trigger] after.processes.contains(process) <==> cluster.processes.contains(process)
                    && !(process.node == node && process.pid == pid)
            &&& after.processes.len() == cluster.processes.len() - 1
            &&& forall|i: int| 0 <= i < actions.len() ==> #[trigger] actions[i] is Send
            &&& cluster.blocked.to_multiset() == after.blocked.to_multiset().add(
                requests_of(actions).to_multiset(),
            )
            &&& forall|i: int, n: int|
                #![trigger after.blocked[i], after.nodes[n]]
                0 <= i < after.blocked.len() && 0 <= n < after.nodes.len()
                    ==> after.blocked[i].resources.mem.0 > after.nodes[n].mem.0
                    || after.blocked[i].resources.cpu.0 > after.nodes[n].cpu.0
        }),
{
    let (after, actions) = cluster.next(Message::Done { node, pid });
    let mid = freed(cluster, node, pid);
    lemma_freed(cluster, node, pid);
    lemma_retried(mid, cluster.blocked);
    lemma_retried_sends(mid, cluster.blocked);
    law_blocked_keep_their_order(mid, cluster.blocked);
    let at = cluster.position(node, pid);
    assert(cluster.processes[at].node == node && cluster.processes[at].pid == pid);
    assert forall|process: Process| #[trigger]
        after.processes.contains(process) <==> cluster.processes.contains(process) && !(process.node
            == node && process.pid == pid) by {
        if after.processes.contains(process) {
            let i = after.processes.index_of(process);
            let k = if i < at {
                i
            } else {
                i + 1
            };
            assert(cluster.processes[k] == process);
            assert(cluster.processes[at] == cluster.processes[at]);
        }
        if cluster.processes.contains(process) && !(process.node == node && process.pid == pid) {
            let i = cluster.processes.index_of(process);
            assert(cluster.processes[i] == process);
            let k = if i < at {
                i
            } else {
                i - 1
            };
            assert(after.processes[k] == process);
        }
    }
    assert forall|i: int, n: int|
        #![trigger after.blocked[i], after.nodes[n]]
        0 <= i < after.blocked.len() && 0 <= n < after.nodes.len() implies after.blocked[i].resources.mem.0
        > after.nodes[n].mem.0 || after.blocked[i].resources.cpu.0 > after.nodes[n].cpu.0 by {
        let end = mid.retried(cluster.blocked).0;
        assert(!end.fits(after.blocked[i].resources));
        assert(!end.nodes[n].has_room(after.blocked[i].resources));
    }
}

proof fn lemma_retried_first(cluster: Cluster, waiting: Seq<Request>, n: int)
    requires
        cluster.wf(),
        cluster.nodes.len() <= usize::MAX,
        waiting.len() > 0,
        cluster.first_fit(waiting[0].resources, n),
    ensures
        cluster.retried(waiting).1.len() > 0,
        cluster.retried(waiting).1[0] == (Action::Send { node: n as usize, request: waiting[0] }),
    decreases waiting.len(),
{
    if waiting.len() == 1 {
        assert(waiting.drop_last() =~= Seq::<Request>::empty());
        lemma_first_fit_unique(cluster, waiting[0].resources, n);
    } else {
        lemma_retried_first(cluster, waiting.drop_last(), n);
    }
}

/// Whoever waits longest comes first: if there is room for it once a process has
/// ended, it is the first to be sent, to the first machine that then has room.
pub proof fn law_the_longest_waiting_comes_first(cluster: Cluster, node: usize, pid: Pid, n: usize)
    requires
        cluster.wf(),
        cluster.nodes.len() <= usize::MAX,
        cluster.accepts(Message::Done { node, pid }),
        cluster.blocked.len() > 0,
        n < cluster.nodes.len(),
        ({
            let gone = cluster.processes[cluster.position(node, pid)].resources;
            let need = cluster.blocked[0].resources;
            &&& need.mem.0 <= cluster.nodes[n as int].mem.0 + (if n == node {
                gone.mem.0 as int
            } else {
                0
            })
            &&& need.cpu.0 <= cluster.nodes[n as int].cpu.0 + (if n == node {
                gone.cpu.0 as int
            } else {
                0
            })
            &&& forall|m: int|
                0 <= m < n ==> need.mem.0 > (#[trigger] cluster.nodes[m]).mem.0 + (if m == node {
                    gone.mem.0 as int
                } else {
                    0
                }) || need.cpu.0 > cluster.nodes[m].cpu.0 + (if m == node {
                    gone.cpu.0 as int
                } else {
                    0
                })
        }),
    ensures
        ({
            let actions = cluster.next(Message::Done { node, pid }).1;
            actions.len() > 0 && actions[0] == (Action::Send { node: n, request: cluster.blocked[0] })
        }),
{
    lemma_freed(cluster, node, pid);
    let mid = freed(cluster, node, pid);
    let need = cluster.blocked[0].resources;
    assert forall|m: int| 0 <= m < n implies !(#[trigger] mid.nodes[m]).has_room(need) by {
        assert(cluster.nodes[m].mem.0 >= 0);
    }
    assert(mid.first_fit(need, n as int));
    lemma_retried_first(mid, cluster.blocked, n as int);
}

/// What a process took from a machine is back once it has ended, if nothing waits.
pub proof fn law_what_was_taken_is_given_back(cluster: Cluster, node: usize, pid: Pid)
    requires
        cluster.wf(),
        cluster.accepts(Message::Done { node, pid }),
        cluster.blocked.len() == 0,
    ensures
        ({
            let (after, actions) = cluster.next(Message::Done { node, pid });
            let gone = cluster.processes[cluster.position(node, pid)];
            &&& gone.node == node && gone.pid == pid
            &&& actions.len() == 0
            &&& after.nodes[node as int].mem.0 == cluster.nodes[node as int].mem.0
                + gone.resources.mem.0
            &&& after.nodes[node as int].cpu.0 == cluster.nodes[node as int].cpu.0
                + gone.resources.cpu.0
            &&& forall|m: int|
                0 <= m < cluster.nodes.len() && m != node ==> #[trigger] after.nodes[m]
                    == cluster.nodes[m]
            &&& after.pending == cluster.pending
        }),
{
    lemma_freed(cluster, node, pid);
}

} // verus!
