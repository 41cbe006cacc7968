//! A node of a cluster: it runs the processes that the master sends, and tells
//! when they start and when they end.

use crate::event::FabricOutputEvent;
use crate::pid::Pid;
use vstd::prelude::*;

verus! {

/// A process that runs on the node.
#[derive(Copy, Clone, PartialEq, Eq, Debug, Structural)]
pub struct Child {
    pub pid: Pid,
    /// Its number on the node.
    pub system_pid: u64,
}

/// What happens on the node.
#[derive(Copy, Clone, PartialEq, Eq, Debug, Structural)]
pub enum Occasion {
    /// A process that the master sent was started.
    Started(Child),
    /// This process ended.
    Ended(Pid),
    /// The master is gone.
    MasterLost,
}

/// What the node does.
#[derive(Clone, Debug)]
pub enum Act {
    /// Show this.
    Show(FabricOutputEvent),
    /// Tell the master that this process runs.
    TellStarted(Pid),
    /// Tell the master that this process is gone.
    TellEnded(Pid),
    /// Kill the process of this number, and all that it started.
    Kill(u64),
}

/// A node and the processes that run on it.
#[derive(Clone, Debug)]
pub struct Fabric {
    pub children: Vec<Child>,
}

/// Whether `pid` runs.
pub open spec fn runs(children: Seq<Child>, pid: Pid) -> bool {
    exists|i: int| 0 <= i < children.len() && (#[trigger] children[i]).pid == pid
}

/// Where `pid` stands.
pub open spec fn place(children: Seq<Child>, pid: Pid) -> int {
    choose|i: int| 0 <= i < children.len() && (#[trigger] children[i]).pid == pid
}

/// Whether no process is there twice.
pub open spec fn distinct(children: Seq<Child>) -> bool {
    forall|i: int, j: int|
        0 <= i < j < children.len() ==> (#[trigger] children[i]).pid != (#[trigger] children[j]).pid
}

/// Whether `occasion` can arise.
pub open spec fn possible(children: Seq<Child>, occasion: Occasion) -> bool {
    match occasion {
        Occasion::Started(child) => !runs(children, child.pid),
        Occasion::Ended(pid) => runs(children, pid),
        Occasion::MasterLost => true,
    }
}

/// The processes that run after `occasion`. Those that are to be killed still
/// run, until they end.
pub open spec fn children_after(children: Seq<Child>, occasion: Occasion) -> Seq<Child> {
    match occasion {
        Occasion::Started(child) => children.push(child),
        Occasion::Ended(pid) => children.remove(place(children, pid)),
        Occasion::MasterLost => children,
    }
}

/// What the node does on `occasion`.
pub open spec fn acts(children: Seq<Child>, occasion: Occasion) -> Seq<Act> {
    match occasion {
        Occasion::Started(child) => seq![
            Act::Show(
                FabricOutputEvent::Init { pid: child.pid, system_pid: child.system_pid },
            ),
            Act::TellStarted(child.pid),
        ],
        Occasion::Ended(pid) => seq![
            Act::Show(
                FabricOutputEvent::Exit {
                    pid,
                    system_pid: children[place(children, pid)].system_pid,
                },
            ),
            Act::TellEnded(pid),
        ],
        Occasion::MasterLost => Seq::new(
            children.len(),
            |i: int| Act::Kill(children[i].system_pid),
        ),
    }
}

impl Fabric {
    /// A node on which nothing runs.
    pub fn new() -> (r: Fabric)
        ensures
            r.children@ == Seq::<Child>::empty(),
    {
        Fabric { children: Vec::new() }
    }

    fn find(&self, pid: Pid) -> (r: Option<usize>)
        ensures
            match r {
                Some(i) => i < self.children.len() && self.children@[i as int].pid == pid && runs(
                    self.children@,
                    pid,
                ),
                None => !runs(self.children@, pid),
            },
    {
        for i in 0..self.children.len()
            invariant
                forall|j: int| 0 <= j < i ==> (#[trigger] self.children@[j]).pid != pid,
        {
            if self.children[i].pid == pid {
                return Some(i);
            }
        }
        None
    }

    /// Whether `occasion` can arise.
    pub fn accepts(&self, occasion: Occasion) -> (r: bool)
        ensures
            r == possible(self.children@, occasion),
    {
        match occasion {
            Occasion::Started(child) => self.find(child.pid).is_none(),
            Occasion::Ended(pid) => self.find(pid).is_some(),
            Occasion::MasterLost => true,
        }
    }

    /// Takes note of `occasion` and says what is to be done, in this order.
    pub fn handle(&mut self, occasion: Occasion) -> (r: Vec<Act>)
        requires
            possible(old(self).children@, occasion),
            distinct(old(self).children@),
        ensures
            final(self).children@ == children_after(old(self).children@, occasion),
            distinct(final(self).children@),
            r@ == acts(old(self).children@, occasion),
    {
        let mut r: Vec<Act> = Vec::new();
        let ghost before = self.children@;
        match occasion {
            Occasion::Started(child) => {
                self.children.push(child);
                r.push(
                    Act::Show(
                        FabricOutputEvent::Init { pid: child.pid, system_pid: child.system_pid },
                    ),
                );
                r.push(Act::TellStarted(child.pid));
                proof {
                    assert forall|i: int, j: int| 0 <= i < j < self.children@.len() implies (
                    #[trigger] self.children@[i]).pid != (#[trigger] self.children@[j]).pid by {
                        assert(before[i].pid != child.pid);
                    }
                }
            },
            Occasion::Ended(pid) => {
                let i: usize = self.find(pid).unwrap();
                proof {
                    let k = place(before, pid);
                    assert(0 <= k < before.len() && before[k].pid == pid);
                    if k != i as int {
                        assert(before[k].pid != before[i as int].pid || k == i as int);
                    }
                    lemma_removal(before, i as int);
                }
                let child = self.children.remove(i);
                r.push(Act::Show(FabricOutputEvent::Exit { pid, system_pid: child.system_pid }));
                r.push(Act::TellEnded(pid));
            },
            Occasion::MasterLost => {
                for i in 0..self.children.len()
                    invariant
                        self.children@ == before,
                        r@.len() == i,
                        forall|j: int|
                            0 <= j < i ==> #[trigger] r@[j] == Act::Kill(before[j].system_pid),
                {
                    r.push(Act::Kill(self.children[i].system_pid));
                }
            },
        }
        assert(r@ =~= acts(before, occasion));
        r
    }

    /// Whether nothing runs any more.
    pub fn idle(&self) -> (r: bool)
        ensures
            r == (self.children@.len() == 0),
    {
        self.children.len() == 0
    }
}

proof fn lemma_removal(children: Seq<Child>, i: int)
    requires
        distinct(children),
        0 <= i < children.len(),
    ensures
        distinct(children.remove(i)),
{
    let rest = children.remove(i);
    assert forall|j: int, k: int| 0 <= j < k < rest.len() implies (#[trigger] rest[j]).pid != (
    #[trigger] rest[k]).pid by {
        let a = if j < i {
            j
        } else {
            j + 1
        };
        let b = if k < i {
            k
        } else {
            k + 1
        };
        assert(rest[j] == children[a]);
        assert(rest[k] == children[b]);
    }
}

/// Whether the occasions can arise one after the other.
pub open spec fn all_possible(children: Seq<Child>, occasions: Seq<Occasion>) -> bool
    decreases occasions.len(),
{
    occasions.len() > 0 ==> possible(children, occasions[0]) && all_possible(
        children_after(children, occasions[0]),
        occasions.skip(1),
    )
}

/// All that the node does on the occasions.
pub open spec fn all_acts(children: Seq<Child>, occasions: Seq<Occasion>) -> Seq<Act>
    decreases occasions.len(),
{
    if occasions.len() == 0 {
        seq![]
    } else {
        acts(children, occasions[0]) + all_acts(
            children_after(children, occasions[0]),
            occasions.skip(1),
        )
    }
}

/// The processes that run after the occasions.
pub open spec fn children_after_all(children: Seq<Child>, occasions: Seq<Occasion>) -> Seq<Child>
    decreases occasions.len(),
{
    if occasions.len() == 0 {
        children
    } else {
        children_after_all(children_after(children, occasions[0]), occasions.skip(1))
    }
}

/// How many of `acts` tell the master that a process runs.
pub open spec fn told_started(acts: Seq<Act>) -> int
    decreases acts.len(),
{
    if acts.len() == 0 {
        0
    } else {
        told_started(acts.drop_last()) + if acts.last() is TellStarted {
            1int
        } else {
            0
        }
    }
}

/// How many of `acts` tell the master that a process is gone.
pub open spec fn told_ended(acts: Seq<Act>) -> int
    decreases acts.len(),
{
    if acts.len() == 0 {
        0
    } else {
        told_ended(acts.drop_last()) + if acts.last() is TellEnded {
            1int
        } else {
            0
        }
    }
}

proof fn lemma_told_more(a: Seq<Act>, b: Seq<Act>)
    ensures
        told_started(a + b) == told_started(a) + told_started(b),
        told_ended(a + b) == told_ended(a) + told_ended(b),
    decreases b.len(),
{
    if b.len() == 0 {
        assert(a + b =~= a);
    } else {
        lemma_told_more(a, b.drop_last());
        assert((a + b).drop_last() =~= a + b.drop_last());
    }
}

proof fn lemma_told_once(children: Seq<Child>, occasion: Occasion)
    requires
        possible(children, occasion),
    ensures
        children_after(children, occasion).len() - children.len() == told_started(
            acts(children, occasion),
        ) - told_ended(acts(children, occasion)),
{
    let list = acts(children, occasion);
    match occasion {
        Occasion::MasterLost => {
            lemma_kills_tell_nothing(list);
        },
        _ => {
            assert(list.drop_last() =~= seq![list[0]]);
            assert(list.drop_last().drop_last() =~= seq![]);
            reveal_with_fuel(told_started, 3);
            reveal_with_fuel(told_ended, 3);
            if let Occasion::Ended(pid) = occasion {
                assert(0 <= place(children, pid) < children.len());
            }
        },
    }
}

proof fn lemma_kills_tell_nothing(list: Seq<Act>)
    requires
        forall|i: int| 0 <= i < list.len() ==> #[trigger] list[i] is Kill,
    ensures
        told_started(list) == 0,
        told_ended(list) == 0,
    decreases list.len(),
{
    if list.len() > 0 {
        lemma_kills_tell_nothing(list.drop_last());
    }
}

/// The master always knows how many processes run: as many as it was told that
/// run, less those that it was told are gone.
pub proof fn law_the_master_can_count(children: Seq<Child>, occasions: Seq<Occasion>)
    requires
        all_possible(children, occasions),
    ensures
        children_after_all(children, occasions).len() == children.len() + told_started(
            all_acts(children, occasions),
        ) - told_ended(all_acts(children, occasions)),
    decreases occasions.len(),
{
    if occasions.len() > 0 {
        let next = children_after(children, occasions[0]);
        lemma_told_once(children, occasions[0]);
        law_the_master_can_count(next, occasions.skip(1));
        lemma_told_more(acts(children, occasions[0]), all_acts(next, occasions.skip(1)));
    }
}

/// When the master is gone, every process that runs is killed.
pub proof fn law_no_process_outlives_the_master(children: Seq<Child>, i: int)
    requires
        0 <= i < children.len(),
    ensures
        acts(children, Occasion::MasterLost).len() == children.len(),
        acts(children, Occasion::MasterLost)[i] == Act::Kill(children[i].system_pid),
{
}

/// How long a node that cannot be reached is tried again, in seconds.
pub const CONNECT_PATIENCE: u64 = 60;

/// After how many seconds a node that cannot be reached is tried again.
pub const CONNECT_PAUSE: u64 = 1;

/// Whether a node that could not be reached for `seconds` and `nanos` is tried
/// again.
pub fn tries_again(seconds: u64, nanos: u32) -> (r: bool)
    requires
        nanos < 1_000_000_000,
    ensures
        r == (seconds * 1_000_000_000 + nanos <= CONNECT_PATIENCE * 1_000_000_000),
{
    seconds < CONNECT_PATIENCE || (seconds == CONNECT_PATIENCE && nanos == 0)
}

/// Those run that were started and have not ended; and of one that ends, the number
/// is shown under which it was started.
pub proof fn law_running_are_those_started_and_not_ended(
    children: Seq<Child>,
    occasion: Occasion,
    child: Child,
)
    requires
        distinct(children),
        possible(children, occasion),
    ensures
        children_after(children, occasion).contains(child) == (match occasion {
            Occasion::Started(new) => children.contains(child) || child == new,
            Occasion::Ended(pid) => children.contains(child) && child.pid != pid,
            Occasion::MasterLost => children.contains(child),
        }),
        occasion matches Occasion::Ended(pid) ==> (children.contains(child) && child.pid == pid
            ==> acts(children, occasion) == seq![
            Act::Show(FabricOutputEvent::Exit { pid, system_pid: child.system_pid }),
            Act::TellEnded(pid),
        ]),
        occasion == Occasion::Started(child) ==> acts(children, occasion) == seq![
            Act::Show(FabricOutputEvent::Init { pid: child.pid, system_pid: child.system_pid }),
            Act::TellStarted(child.pid),
        ],
{
    let after = children_after(children, occasion);
    match occasion {
        Occasion::Started(new) => {
            assert(after[children.len() as int] == new);
            if children.contains(child) {
                let i = children.index_of(child);
                assert(after[i] == child);
            }
        },
        Occasion::Ended(pid) => {
            let k = place(children, pid);
            assert(children[k].pid == pid);
            if children.contains(child) {
                let i = children.index_of(child);
                assert(children[i] == child);
                if i < k {
                    assert(children[i].pid != children[k].pid);
                    assert(after[i] == child);
                } else if i > k {
                    assert(children[k].pid != children[i].pid);
                    assert(after[i - 1] == child);
                }
            }
            if after.contains(child) {
                let i = after.index_of(child);
                let j = if i < k {
                    i
                } else {
                    i + 1
                };
                assert(children[j] == child);
                if j < k {
                    assert(children[j].pid != children[k].pid);
                } else {
                    assert(children[k].pid != children[j].pid);
                }
            }
        },
        Occasion::MasterLost => {},
    }
}

} // verus!
