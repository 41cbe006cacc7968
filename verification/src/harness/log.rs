//! What the processes of a program did, gathered from what was reported of them.

use super::hashmap::{
    find_key, is_map, law_the_entry_with_the_key_is_found, lemma_not_placed, lemma_placed, place_of,
};
use super::numbers::{empty, insert, items};
use crate::deploy::exit::Exited;
use crate::deploy::format::{subject, DeployOutputEvent};
use crate::deploy::pid::Pid;
use vstd::multiset::Multiset;
use vstd::prelude::*;

verus! {

/// What one process did.
pub struct Entry {
    pub pid: Pid,
    /// What it wrote to each descriptor, and whether that came to its end.
    pub output: Vec<(i32, (Vec<u8>, bool))>,
    /// The numbers of the processes that it started.
    pub children: multiset::HashMultiSet<u64>,
    /// How it ended, once it did.
    pub exit: Option<Exited>,
}

/// What one process did.
#[verifier::ext_equal]
pub struct EntryView {
    pub pid: Seq<u8>,
    pub output: Seq<(i32, (Seq<u8>, bool))>,
    pub children: Multiset<u64>,
    pub exit: Option<Exited>,
}

/// What the processes of a program did. They are numbered in the order in which
/// they were first heard of.
pub struct Log {
    pub entries: Vec<Entry>,
}

/// Output, as it is told of.
pub open spec fn output_views(output: Seq<(i32, (Vec<u8>, bool))>) -> Seq<(i32, (Seq<u8>, bool))> {
    output.map_values(|entry: (i32, (Vec<u8>, bool))| (entry.0, (entry.1.0@, entry.1.1)))
}

impl View for Entry {
    type V = EntryView;

    open spec fn view(&self) -> EntryView {
        EntryView {
            pid: self.pid.0@,
            output: output_views(self.output@),
            children: items(self.children),
            exit: self.exit,
        }
    }
}

impl View for Log {
    type V = Seq<EntryView>;

    open spec fn view(&self) -> Seq<EntryView> {
        self.entries@.map_values(|entry: Entry| entry@)
    }
}

/// A process of which nothing is known yet.
pub open spec fn fresh(pid: Pid) -> EntryView {
    EntryView { pid: pid.0@, output: seq![], children: Multiset::empty(), exit: None }
}

/// Whether a process was heard of.
pub open spec fn known(log: Seq<EntryView>, pid: Pid) -> bool {
    exists|i: int| 0 <= i < log.len() && (#[trigger] log[i]).pid == pid.0@
}

/// The number of a process.
pub open spec fn number(log: Seq<EntryView>, pid: Pid) -> int {
    choose|i: int| 0 <= i < log.len() && (#[trigger] log[i]).pid == pid.0@
}

/// The log with `pid` as the first process, if there was none.
pub open spec fn with_top(log: Seq<EntryView>, pid: Pid) -> Seq<EntryView> {
    if log.len() == 0 {
        seq![fresh(pid)]
    } else {
        log
    }
}

/// Whether the output on `fd` came to its end.
pub open spec fn at_end(output: Seq<(i32, (Seq<u8>, bool))>, fd: i32) -> bool {
    place_of(output, fd, 0) matches Some(i) && output[i].1.1
}

/// The output with `bytes` more on `fd`; no bytes are its end.
pub open spec fn with_output(
    output: Seq<(i32, (Seq<u8>, bool))>,
    fd: i32,
    bytes: Seq<u8>,
) -> Seq<(i32, (Seq<u8>, bool))> {
    match place_of(output, fd, 0) {
        Some(i) => output.update(i, (fd, (output[i].1.0 + bytes, bytes.len() == 0))),
        None => output.push((fd, (bytes, bytes.len() == 0))),
    }
}

/// Whether `event` can be reported: of a process that was heard of, of output
/// that did not come to its end, and of a start that is the first.
pub open spec fn possible(log: Seq<EntryView>, event: DeployOutputEvent) -> bool {
    let log = with_top(log, subject(event));
    &&& known(log, subject(event))
    &&& match event {
        DeployOutputEvent::Output(pid, fd, _) => !at_end(log[number(log, pid)].output, fd),
        DeployOutputEvent::Spawn(_, new_pid) => !known(log, new_pid),
        DeployOutputEvent::Exit(_, _) => true,
    }
}

/// The log after `event`.
pub open spec fn after(log: Seq<EntryView>, event: DeployOutputEvent) -> Seq<EntryView> {
    let log = with_top(log, subject(event));
    let i = number(log, subject(event));
    match event {
        DeployOutputEvent::Output(_, fd, bytes) => log.update(
            i,
            EntryView { output: with_output(log[i].output, fd, bytes@), ..log[i] },
        ),
        DeployOutputEvent::Spawn(_, new_pid) => log.update(
            i,
            EntryView { children: log[i].children.insert(log.len() as u64), ..log[i] },
        ).push(fresh(new_pid)),
        DeployOutputEvent::Exit(_, exited) => log.update(
            i,
            EntryView { exit: Some(exited), ..log[i] },
        ),
    }
}

/// Whether no process is there twice.
pub open spec fn distinct(log: Seq<EntryView>) -> bool {
    forall|i: int, j: int|
        0 <= i < j < log.len() ==> (#[trigger] log[i]).pid != (#[trigger] log[j]).pid
}

/// Whether each process that was started has a higher number than the one that
/// started it.
pub open spec fn ordered(log: Seq<EntryView>) -> bool {
    forall|i: int, child: u64|
        0 <= i < log.len() && #[trigger] log[i].children.count(child) > 0 ==> i < child < log.len()
}

/// Whether each process but the first was started by one process, once.
pub open spec fn a_tree(log: Seq<EntryView>) -> bool {
    forall|child: u64| 0 < child < log.len() ==> #[trigger] was_started(log, child)
}

/// Whether the process of that number was started by one process, once.
pub open spec fn was_started(log: Seq<EntryView>, child: u64) -> bool {
    exists|i: int| started_by(log, child, i)
}

/// Whether the process of that number was started by process `i`, once, and by
/// no other.
pub open spec fn started_by(log: Seq<EntryView>, child: u64, i: int) -> bool {
    &&& 0 <= i < log.len()
    &&& log[i].children.count(child) == 1
    &&& forall|j: int| 0 <= j < log.len() && j != i ==> #[trigger] log[j].children.count(child) == 0
}

/// Whether the output of each process is told of once for each descriptor.
pub open spec fn maps(log: Seq<EntryView>) -> bool {
    forall|i: int| 0 <= i < log.len() ==> is_map((#[trigger] log[i]).output)
}

/// Whether a log is sound.
pub open spec fn wf(log: Seq<EntryView>) -> bool {
    &&& distinct(log)
    &&& ordered(log)
    &&& a_tree(log)
    &&& maps(log)
    &&& log.len() <= u64::MAX
}

/// Whether every process ended.
pub open spec fn complete(log: Seq<EntryView>) -> bool {
    log.len() > 0 && forall|i: int| 0 <= i < log.len() ==> (#[trigger] log[i]).exit is Some
}

proof fn lemma_number(log: Seq<EntryView>, pid: Pid, i: int)
    requires
        distinct(log),
        0 <= i < log.len(),
        log[i].pid == pid.0@,
    ensures
        number(log, pid) == i,
        known(log, pid),
{
    let k = number(log, pid);
    assert(0 <= k < log.len() && log[k].pid == pid.0@);
    if k < i {
        assert(log[k].pid != log[i].pid);
    }
    if i < k {
        assert(log[i].pid != log[k].pid);
    }
}

proof fn lemma_output_stays_a_map(output: Seq<(i32, (Seq<u8>, bool))>, fd: i32, bytes: Seq<u8>)
    requires
        is_map(output),
    ensures
        is_map(with_output(output, fd, bytes)),
{
    let next = with_output(output, fd, bytes);
    lemma_placed(output, fd, 0);
    assert forall|i: int, j: int| 0 <= i < j < next.len() implies (#[trigger] next[i]).0 != (
    #[trigger] next[j]).0 by {
        if j < output.len() {
            assert(output[i].0 != output[j].0);
        } else {
            lemma_not_placed(output, fd, 0, i);
        }
    }
}

/// Whatever is reported, each process but the first is started once, by a
/// process that was heard of before: the processes form a tree.
pub proof fn law_processes_form_a_tree(log: Seq<EntryView>, event: DeployOutputEvent)
    requires
        wf(log),
        possible(log, event),
        log.len() < u64::MAX,
    ensures
        wf(after(log, event)),
{
    let top = with_top(log, subject(event));
    assert(wf(top));
    let i = number(top, subject(event));
    assert(0 <= i < top.len());
    let next = after(log, event);
    assert forall|a: int| 0 <= a < next.len() implies is_map((#[trigger] next[a]).output) by {
        if a < top.len() {
            assert(is_map(top[a].output));
            if let DeployOutputEvent::Output(_, fd, bytes) = event {
                lemma_output_stays_a_map(top[a].output, fd, bytes@);
            }
        }
    }
    match event {
        DeployOutputEvent::Spawn(_, new_pid) => {
            let new = top.len() as u64;
            assert forall|a: int, b: int| 0 <= a < b < next.len() implies (#[trigger] next[a]).pid
                != (#[trigger] next[b]).pid by {
                if b == top.len() {
                    assert(top[a].pid != new_pid.0@);
                } else {
                    assert(top[a].pid != top[b].pid);
                }
            }
            assert forall|a: int, child: u64|
                0 <= a < next.len() && #[trigger] next[a].children.count(child) > 0 implies a
                < child < next.len() by {
                if a < top.len() {
                    if child != new || a != i {
                        assert(top[a].children.count(child) > 0);
                    }
                }
            }
            assert forall|child: u64| 0 < child < next.len() implies #[trigger] was_started(
                next,
                child,
            ) by {
                if child == new {
                    assert forall|j: int| 0 <= j < top.len() implies #[trigger] top[j].children.count(
                        new,
                    ) == 0 by {}
                    assert(started_by(next, child, i));
                } else {
                    assert(was_started(top, child));
                    let a = choose|a: int| started_by(top, child, a);
                    assert(started_by(top, child, a));
                    assert forall|j: int| 0 <= j < next.len() && j != a implies #[trigger] next[j].children.count(
                        child,
                    ) == 0 by {
                        if j < top.len() {
                            assert(top[j].children.count(child) == 0);
                        }
                    }
                    assert(next[a].children.count(child) == top[a].children.count(child));
                    assert(started_by(next, child, a));
                }
            }
        },
        _ => {
            assert forall|a: int| 0 <= a < next.len() implies (#[trigger] next[a]).children
                == top[a].children && next[a].pid == top[a].pid by {}
            assert forall|a: int, b: int| 0 <= a < b < next.len() implies (#[trigger] next[a]).pid
                != (#[trigger] next[b]).pid by {
                assert(top[a].pid != top[b].pid);
            }
            assert forall|child: u64| 0 < child < next.len() implies #[trigger] was_started(
                next,
                child,
            ) by {
                assert(was_started(top, child));
                let a = choose|a: int| started_by(top, child, a);
                assert(started_by(top, child, a));
                assert forall|j: int| 0 <= j < next.len() && j != a implies #[trigger] next[j].children.count(
                    child,
                ) == 0 by {
                    assert(top[j].children.count(child) == 0);
                }
                assert(started_by(next, child, a));
            }
        },
    }
}

fn same_bytes(a: &Vec<u8>, more: &Vec<u8>) -> (r: Vec<u8>)
    ensures
        r@ == a@ + more@,
{
    let mut r: Vec<u8> = Vec::new();
    for i in 0..a.len()
        invariant
            r@ == a@.take(i as int),
    {
        r.push(a[i]);
        assert(r@ =~= a@.take(i + 1));
    }
    assert(a@.take(a@.len() as int) =~= a@);
    for i in 0..more.len()
        invariant
            r@ == a@ + more@.take(i as int),
    {
        r.push(more[i]);
        assert(r@ =~= a@ + more@.take(i + 1));
    }
    assert(more@.take(more@.len() as int) =~= more@);
    r
}

pub proof fn lemma_place_of_views(output: Seq<(i32, (Vec<u8>, bool))>, fd: i32, from: int)
    ensures
        place_of(output_views(output), fd, from) == place_of(output, fd, from),
    decreases output.len() - from,
{
    if 0 <= from < output.len() {
        lemma_place_of_views(output, fd, from + 1);
    }
}

fn add_output(output: Vec<(i32, (Vec<u8>, bool))>, fd: i32, bytes: &Vec<u8>) -> (r: Vec<
    (i32, (Vec<u8>, bool)),
>)
    ensures
        output_views(r@) == with_output(output_views(output@), fd, bytes@),
{
    let ghost before = output@;
    let mut output = output;
    proof {
        lemma_place_of_views(output@, fd, 0);
    }
    match find_key(&output, fd) {
        Some(i) => {
            let joined = same_bytes(&output[i].1.0, bytes);
            let ended = bytes.len() == 0;
            output.set(i, (fd, (joined, ended)));
            assert(output_views(output@) =~= with_output(output_views(before), fd, bytes@));
        },
        None => {
            let joined = same_bytes(&Vec::new(), bytes);
            assert(joined@ =~= bytes@);
            let ended = bytes.len() == 0;
            output.push((fd, (joined, ended)));
            assert(output_views(output@) =~= with_output(output_views(before), fd, bytes@));
        },
    }
    output
}

fn new_entry(pid: Pid) -> (r: Entry)
    ensures
        r@ == fresh(pid),
{
    let r = Entry { pid, output: Vec::new(), children: empty(), exit: None };
    assert(r@.output =~= seq![]);
    r
}

impl Log {
    /// A log without entries.
    pub fn new() -> (r: Log)
        ensures
            r@ == Seq::<EntryView>::empty(),
            wf(r@),
    {
        let r = Log { entries: Vec::new() };
        assert(r@ =~= Seq::<EntryView>::empty());
        r
    }

    fn find(&self, pid: &Pid) -> (r: Option<usize>)
        ensures
            match r {
                Some(i) => i < self.entries.len() && self@[i as int].pid == pid.0@ && known(
                    self@,
                    *pid,
                ),
                None => !known(self@, *pid),
            },
    {
        for i in 0..self.entries.len()
            invariant
                forall|j: int| 0 <= j < i ==> (#[trigger] self@[j]).pid != pid.0@,
        {
            assert(self@[i as int] == self.entries@[i as int]@);
            if self.entries[i].pid.same(pid) {
                return Some(i);
            }
        }
        None
    }

    /// Whether `event` can be reported.
    pub fn accepts(&self, event: &DeployOutputEvent) -> (r: bool)
        requires
            wf(self@),
        ensures
            r == possible(self@, *event),
    {
        let pid = match event {
            DeployOutputEvent::Spawn(pid, _) => *pid,
            DeployOutputEvent::Output(pid, _, _) => *pid,
            DeployOutputEvent::Exit(pid, _) => *pid,
        };
        if self.entries.len() == 0 {
            proof {
                lemma_number(seq![fresh(pid)], pid, 0);
            }
            return match event {
                DeployOutputEvent::Spawn(_, new_pid) => {
                    let same = new_pid.same(&pid);
                    proof {
                        assert(with_top(self@, pid)[0].pid == pid.0@);
                        if !same && known(with_top(self@, pid), *new_pid) {
                            let k = number(with_top(self@, pid), *new_pid);
                            assert(with_top(self@, pid)[k].pid == new_pid.0@);
                        }
                    }
                    !same
                },
                _ => true,
            };
        }
        match self.find(&pid) {
            None => false,
            Some(i) => {
                proof {
                    lemma_number(self@, pid, i as int);
                    assert(self@[i as int] == self.entries@[i as int]@);
                }
                match event {
                    DeployOutputEvent::Spawn(_, new_pid) => self.find(new_pid).is_none(),
                    DeployOutputEvent::Output(_, fd, _) => {
                        proof {
                            lemma_place_of_views(self.entries@[i as int].output@, *fd, 0);
                        }
                        match find_key(&self.entries[i].output, *fd) {
                            Some(k) => !self.entries[i].output[k].1.1,
                            None => true,
                        }
                    },
                    DeployOutputEvent::Exit(_, _) => true,
                }
            },
        }
    }

    /// Takes note of `event`.
    pub fn handle(&mut self, event: &DeployOutputEvent)
        requires
            wf(old(self)@),
            possible(old(self)@, *event),
            old(self)@.len() < u64::MAX,
        ensures
            final(self)@ == after(old(self)@, *event),
            wf(final(self)@),
    {
        proof {
            law_processes_form_a_tree(self@, *event);
        }
        let ghost start = self@;
        let pid = match event {
            DeployOutputEvent::Spawn(pid, _) => *pid,
            DeployOutputEvent::Output(pid, _, _) => *pid,
            DeployOutputEvent::Exit(pid, _) => *pid,
        };
        if self.entries.len() == 0 {
            self.entries.push(new_entry(pid));
        }
        let ghost top = with_top(start, pid);
        assert(self@ =~= top);
        let i: usize = self.find(&pid).unwrap();
        proof {
            assert(distinct(top));
            lemma_number(top, pid, i as int);
            assert(top[i as int] == self.entries@[i as int]@);
        }
        let n: u64 = self.entries.len() as u64;
        let mut entry = self.entries.remove(i);
        let ghost was = entry@;
        match event {
            DeployOutputEvent::Output(_, fd, bytes) => {
                let output = add_output(entry.output, *fd, bytes);
                entry.output = output;
                assert(entry@ =~= (EntryView {
                    output: with_output(was.output, *fd, bytes@),
                    ..was
                }));
                self.entries.insert(i, entry);
            },
            DeployOutputEvent::Spawn(_, new_pid) => {
                insert(&mut entry.children, n);
                assert(entry@ =~= (EntryView { children: was.children.insert(n), ..was }));
                self.entries.insert(i, entry);
                self.entries.push(new_entry(*new_pid));
            },
            DeployOutputEvent::Exit(_, exited) => {
                entry.exit = Some(*exited);
                assert(entry@ =~= (EntryView { exit: Some(*exited), ..was }));
                self.entries.insert(i, entry);
            },
        }
        assert(self@ =~= after(start, *event));
    }

    /// Whether all that the program did is known: there was a process, and every
    /// process ended.
    pub fn is_complete(&self) -> (r: bool)
        ensures
            r == complete(self@),
    {
        if self.entries.len() == 0 {
            return false;
        }
        for i in 0..self.entries.len()
            invariant
                forall|j: int| 0 <= j < i ==> (#[trigger] self@[j]).exit is Some,
        {
            assert(self@[i as int] == self.entries@[i as int]@);
            if self.entries[i].exit.is_none() {
                return false;
            }
        }
        true
    }
}

/// What a process writes is gathered for it, for the descriptor that it wrote to,
/// behind what it wrote there before; no bytes are the end of it; and of no other
/// descriptor and no other process does anything change.
pub proof fn law_output_is_gathered(
    log: Seq<EntryView>,
    pid: Pid,
    fd: i32,
    bytes: Vec<u8>,
    i: int,
    j: int,
    k: int,
)
    requires
        wf(log),
        possible(log, DeployOutputEvent::Output(pid, fd, bytes)),
        0 <= i < log.len(),
        log[i].pid == pid.0@,
        0 <= j < log.len(),
        j != i,
        0 <= k < log[i].output.len(),
    ensures
        ({
            let next = after(log, DeployOutputEvent::Output(pid, fd, bytes));
            &&& next.len() == log.len()
            &&& next[j] == log[j]
            &&& next[i].pid == log[i].pid
            &&& next[i].exit == log[i].exit
            &&& next[i].children == log[i].children
            &&& log[i].output[k].0 != fd ==> next[i].output[k] == log[i].output[k]
            &&& log[i].output[k].0 == fd ==> !log[i].output[k].1.1 && next[i].output[k] == (
                fd,
                (log[i].output[k].1.0 + bytes@, bytes@.len() == 0),
            ) && next[i].output.len() == log[i].output.len()
            &&& next[i].output.len() > log[i].output.len() ==> next[i].output.len()
                == log[i].output.len() + 1 && next[i].output.last() == (
                fd,
                (bytes@, bytes@.len() == 0),
            )
        }),
{
    lemma_number(log, pid, i);
    law_the_entry_with_the_key_is_found(log[i].output, fd, k);
    assert(is_map(log[i].output));
    lemma_placed(log[i].output, fd, 0);
}

/// How a process ended is noted for it alone.
pub proof fn law_ends_are_noted(log: Seq<EntryView>, pid: Pid, exited: Exited, i: int, j: int)
    requires
        wf(log),
        0 <= i < log.len(),
        log[i].pid == pid.0@,
        0 <= j < log.len(),
        j != i,
    ensures
        possible(log, DeployOutputEvent::Exit(pid, exited)),
        ({
            let next = after(log, DeployOutputEvent::Exit(pid, exited));
            &&& next.len() == log.len()
            &&& next[i].exit == Some(exited)
            &&& next[i].output == log[i].output
            &&& next[i].children == log[i].children
            &&& next[i].pid == log[i].pid
            &&& next[j] == log[j]
        }),
{
    lemma_number(log, pid, i);
}

/// A process that is started is new, has done nothing yet, and is a child of the one
/// that started it, and of no other.
pub proof fn law_starts_are_noted(log: Seq<EntryView>, pid: Pid, new_pid: Pid, i: int, j: int)
    requires
        wf(log),
        log.len() < u64::MAX,
        possible(log, DeployOutputEvent::Spawn(pid, new_pid)),
        0 <= i < log.len(),
        log[i].pid == pid.0@,
        0 <= j < log.len(),
        j != i,
    ensures
        ({
            let next = after(log, DeployOutputEvent::Spawn(pid, new_pid));
            &&& next.len() == log.len() + 1
            &&& log[j].pid != new_pid.0@ && log[i].pid != new_pid.0@
            &&& next.last().pid == new_pid.0@
            &&& next.last().output.len() == 0
            &&& next.last().children == Multiset::<u64>::empty()
            &&& next.last().exit is None
            &&& next[i].children.count(log.len() as u64) == 1
            &&& next[i].children.len() == log[i].children.len() + 1
            &&& next[i].output == log[i].output
            &&& next[i].exit == log[i].exit
            &&& next[i].pid == log[i].pid
            &&& next[j] == log[j]
        }),
{
    lemma_number(log, pid, i);
    assert(log[i].children.count(log.len() as u64) == 0);
}

/// The process that is heard of first is the first, and nothing can be reported later
/// of one that was never started.
pub proof fn law_the_first_is_the_one_heard_of_first(log: Seq<EntryView>, event: DeployOutputEvent)
    requires
        possible(log, event),
    ensures
        log.len() == 0 ==> after(log, event).len() > 0 && after(log, event)[0].pid == subject(
            event,
        ).0@,
        log.len() > 0 ==> exists|i: int|
            0 <= i < log.len() && (#[trigger] log[i]).pid == subject(event).0@,
{
    let top = with_top(log, subject(event));
    if log.len() == 0 {
        assert(top[0].pid == subject(event).0@);
        let i = number(top, subject(event));
        assert(0 <= i < top.len() && top[i].pid == subject(event).0@);
    }
}

/// A log is complete exactly when the last process that was still to end has.
pub proof fn law_complete_once_the_last_has_ended(
    log: Seq<EntryView>,
    pid: Pid,
    exited: Exited,
    i: int,
)
    requires
        wf(log),
        0 <= i < log.len(),
        log[i].pid == pid.0@,
        log[i].exit is None,
    ensures
        !complete(log),
        !complete(Seq::<EntryView>::empty()),
        complete(after(log, DeployOutputEvent::Exit(pid, exited))) <==> forall|j: int|
            0 <= j < log.len() && j != i ==> (#[trigger] log[j]).exit is Some,
{
    lemma_number(log, pid, i);
    let next = after(log, DeployOutputEvent::Exit(pid, exited));
    if complete(next) {
        assert forall|j: int| 0 <= j < log.len() && j != i implies (#[trigger] log[j]).exit
            is Some by {
            assert(next[j].exit is Some);
        }
    }
}

} // verus!
