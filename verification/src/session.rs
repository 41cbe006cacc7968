//! The processes of a program that is running, as seen by whoever started it.

use crate::event::{DeployInputEvent, DeployOutputEvent, ProcessOutputEvent};
use crate::exit::{combined, ExitStatus};
use crate::pid::Pid;
use vstd::prelude::*;

verus! {

/// Which processes of a program are alive, and what the exit statuses of the
/// others come to.
#[derive(Clone, Debug)]
pub struct Session {
    pub live: Vec<Pid>,
    pub status: ExitStatus,
}

/// Whether `event` can happen while the processes `live` are alive: only one of
/// them can do something, and a process that starts is not yet among them.
pub open spec fn possible(live: Seq<Pid>, event: DeployOutputEvent) -> bool {
    match event {
        DeployOutputEvent::Spawn(pid, new_pid) => live.contains(pid) && !live.contains(new_pid),
        DeployOutputEvent::Output(pid, _, _) => live.contains(pid),
        DeployOutputEvent::Exit(pid, _) => live.contains(pid),
    }
}

/// The processes that are alive after `event`.
pub open spec fn live_after(live: Seq<Pid>, event: DeployOutputEvent) -> Seq<Pid> {
    match event {
        DeployOutputEvent::Spawn(_, new_pid) => live.push(new_pid),
        DeployOutputEvent::Output(_, _, _) => live,
        DeployOutputEvent::Exit(pid, _) => live.remove(live.index_of(pid)),
    }
}

/// What the exit statuses come to after `event`.
pub open spec fn status_after(status: ExitStatus, event: DeployOutputEvent) -> ExitStatus {
    match event {
        DeployOutputEvent::Exit(_, exited) => combined(status, exited),
        _ => status,
    }
}

/// Whether `events` can happen, one after the other, while the processes `live`
/// are alive.
pub open spec fn all_possible(live: Seq<Pid>, events: Seq<DeployOutputEvent>) -> bool
    decreases events.len(),
{
    events.len() > 0 ==> possible(live, events[0]) && all_possible(
        live_after(live, events[0]),
        events.skip(1),
    )
}

/// The processes that are alive after `events`.
pub open spec fn live_after_all(live: Seq<Pid>, events: Seq<DeployOutputEvent>) -> Seq<Pid>
    decreases events.len(),
{
    if events.len() == 0 {
        live
    } else {
        live_after_all(live_after(live, events[0]), events.skip(1))
    }
}

/// What the exit statuses come to after `events`.
pub open spec fn status_after_all(status: ExitStatus, events: Seq<DeployOutputEvent>) -> ExitStatus
    decreases events.len(),
{
    if events.len() == 0 {
        status
    } else {
        status_after_all(status_after(status, events[0]), events.skip(1))
    }
}

/// How many processes start in `events`.
pub open spec fn starts(events: Seq<DeployOutputEvent>) -> nat
    decreases events.len(),
{
    if events.len() == 0 {
        0
    } else {
        starts(events.skip(1)) + if events[0] is Spawn {
            1nat
        } else {
            0
        }
    }
}

/// How many processes end in `events`.
pub open spec fn ends(events: Seq<DeployOutputEvent>) -> nat
    decreases events.len(),
{
    if events.len() == 0 {
        0
    } else {
        ends(events.skip(1)) + if events[0] is Exit {
            1nat
        } else {
            0
        }
    }
}

/// Where `pid` stands in `live`.
pub fn find(live: &Vec<Pid>, pid: Pid) -> (r: Option<usize>)
    ensures
        match r {
            Some(i) => i < live.len() && live@[i as int] == pid && live@.contains(pid),
            None => !live@.contains(pid),
        },
{
    for i in 0..live.len()
        invariant
            forall|j: int| 0 <= j < i ==> live@[j] != pid,
    {
        if live[i] == pid {
            return Some(i);
        }
    }
    None
}

impl Session {
    /// A program whose only process is `pid`.
    pub fn new(pid: Pid) -> (r: Session)
        ensures
            r.live@ == seq![pid],
            r.status == ExitStatus::Success,
    {
        let mut live: Vec<Pid> = Vec::new();
        live.push(pid);
        assert(live@ =~= seq![pid]);
        Session { live, status: ExitStatus::Success }
    }

    /// Whether `pid` is alive.
    pub fn has(&self, pid: Pid) -> (r: bool)
        ensures
            r == self.live@.contains(pid),
    {
        find(&self.live, pid).is_some()
    }

    /// Whether `event` can happen now.
    pub fn accepts(&self, event: &DeployOutputEvent) -> (r: bool)
        ensures
            r == possible(self.live@, *event),
    {
        match event {
            DeployOutputEvent::Spawn(pid, new_pid) => self.has(*pid) && !self.has(*new_pid),
            DeployOutputEvent::Output(pid, _, _) => self.has(*pid),
            DeployOutputEvent::Exit(pid, _) => self.has(*pid),
        }
    }

    /// Takes note of `event`.
    pub fn handle(&mut self, event: &DeployOutputEvent)
        requires
            possible(old(self).live@, *event),
            old(self).live@.no_duplicates(),
        ensures
            final(self).live@ == live_after(old(self).live@, *event),
            final(self).live@.no_duplicates(),
            final(self).status == status_after(old(self).status, *event),
    {
        match event {
            DeployOutputEvent::Spawn(_, new_pid) => {
                self.live.push(*new_pid);
            },
            DeployOutputEvent::Output(_, _, _) => {},
            DeployOutputEvent::Exit(pid, status) => {
                let i: usize = find(&self.live, *pid).unwrap();
                proof {
                    lemma_index(self.live@, *pid, i as int);
                }
                let _ = self.live.remove(i);
                self.status.add_assign(*status);
            },
        }
    }

    /// Takes note of what the process that stands at `i` reports, and gives it
    /// as a report of the program.
    pub fn hear(&mut self, i: usize, event: ProcessOutputEvent) -> (r: DeployOutputEvent)
        requires
            i < old(self).live.len(),
        ensures
            r == event.of(old(self).live@[i as int]),
            final(self).live@ == match event {
                ProcessOutputEvent::Spawn(new_pid) => old(self).live@.push(new_pid),
                ProcessOutputEvent::Output(_, _) => old(self).live@,
                ProcessOutputEvent::Exit(_) => old(self).live@.remove(i as int),
            },
            old(self).live@.no_duplicates() ==> final(self).live@ == live_after(old(self).live@, r),
            final(self).status == status_after(old(self).status, r),
    {
        let pid = self.live[i];
        match &event {
            ProcessOutputEvent::Spawn(new_pid) => {
                self.live.push(*new_pid);
            },
            ProcessOutputEvent::Output(_, _) => {},
            ProcessOutputEvent::Exit(status) => {
                proof {
                    if self.live@.no_duplicates() {
                        lemma_index(self.live@, pid, i as int);
                    }
                }
                let _ = self.live.remove(i);
                self.status.add_assign(*status);
            },
        }
        event.into_deploy(pid)
    }

    /// Whether the program has ended: none of its processes is alive.
    pub fn over(&self) -> (r: bool)
        ensures
            r == (self.live@.len() == 0),
    {
        self.live.len() == 0
    }
}

proof fn lemma_index(live: Seq<Pid>, pid: Pid, i: int)
    requires
        live.no_duplicates(),
        0 <= i < live.len(),
        live[i] == pid,
    ensures
        live.index_of(pid) == i,
        live.remove(i).no_duplicates(),
{
    let k = live.index_of(pid);
    assert(live.contains(pid));
    assert(0 <= k < live.len() && live[k] == pid);
}

/// What is passed on of `bytes` that were read for `pid`, and whether more is to
/// be read. No bytes are the end of the input, which is passed on too.
pub fn typed(pid: Pid, bytes: Vec<u8>) -> (r: (DeployInputEvent, bool))
    ensures
        r.0 == DeployInputEvent::Input(pid, 0, bytes),
        r.1 == (bytes@.len() > 0),
{
    let more = bytes.len() > 0;
    (DeployInputEvent::Input(pid, 0, bytes), more)
}

/// No process is ever counted twice, and the program has ended exactly if as
/// many processes ended as there ever were.
pub proof fn law_ends_with_the_last_process(pid: Pid, events: Seq<DeployOutputEvent>)
    requires
        all_possible(seq![pid], events),
    ensures
        live_after_all(seq![pid], events).no_duplicates(),
        live_after_all(seq![pid], events).len() == 1 + starts(events) - ends(events),
        live_after_all(seq![pid], events).len() == 0 <==> ends(events) == 1 + starts(events),
{
    lemma_live_count(seq![pid], events);
}

proof fn lemma_live_count(live: Seq<Pid>, events: Seq<DeployOutputEvent>)
    requires
        live.no_duplicates(),
        all_possible(live, events),
    ensures
        live_after_all(live, events).no_duplicates(),
        live_after_all(live, events).len() == live.len() + starts(events) - ends(events),
    decreases events.len(),
{
    if events.len() > 0 {
        match events[0] {
            DeployOutputEvent::Exit(pid, _) => {
                let i = live.index_of(pid);
                assert(0 <= i < live.len() && live[i] == pid);
                lemma_index(live, pid, i);
            },
            _ => {},
        }
        lemma_live_count(live_after(live, events[0]), events.skip(1));
    }
}

/// A program succeeds exactly if each of its processes does.
pub proof fn law_succeeds_if_all_do(events: Seq<DeployOutputEvent>)
    ensures
        status_after_all(ExitStatus::Success, events) == ExitStatus::Success <==> forall|i: int|
            0 <= i < events.len() && #[trigger] events[i] is Exit ==> events[i]->Exit_1
                == ExitStatus::Success,
{
    lemma_success(ExitStatus::Success, events);
}

proof fn lemma_success(status: ExitStatus, events: Seq<DeployOutputEvent>)
    ensures
        status_after_all(status, events) == ExitStatus::Success <==> status == ExitStatus::Success
            && forall|i: int|
            0 <= i < events.len() && #[trigger] events[i] is Exit ==> events[i]->Exit_1
                == ExitStatus::Success,
    decreases events.len(),
{
    if events.len() > 0 {
        let rest = events.skip(1);
        lemma_success(status_after(status, events[0]), rest);
        assert forall|i: int| 1 <= i < events.len() implies #[trigger] events[i] == rest[i - 1] by {}
        if forall|i: int|
            0 <= i < events.len() && #[trigger] events[i] is Exit ==> events[i]->Exit_1
                == ExitStatus::Success {
            assert forall|i: int| 0 <= i < rest.len() && #[trigger] rest[i] is Exit implies rest[i]->Exit_1
                == ExitStatus::Success by {
                assert(rest[i] == events[i + 1]);
            }
        }
    }
}

/// Those are alive that were started and have not ended.
pub proof fn law_alive_are_those_started_and_not_ended(
    live: Seq<Pid>,
    event: DeployOutputEvent,
    pid: Pid,
)
    requires
        live.no_duplicates(),
        possible(live, event),
    ensures
        live_after(live, event).contains(pid) == (match event {
            DeployOutputEvent::Spawn(_, new_pid) => live.contains(pid) || pid == new_pid,
            DeployOutputEvent::Output(_, _, _) => live.contains(pid),
            DeployOutputEvent::Exit(gone, _) => live.contains(pid) && pid != gone,
        }),
{
    let after = live_after(live, event);
    match event {
        DeployOutputEvent::Spawn(_, new_pid) => {
            assert(after[after.len() - 1] == new_pid);
            if live.contains(pid) {
                let i = live.index_of(pid);
                assert(after[i] == pid);
            }
        },
        DeployOutputEvent::Output(_, _, _) => {},
        DeployOutputEvent::Exit(gone, _) => {
            let k = live.index_of(gone);
            assert(live[k] == gone);
            if live.contains(pid) && pid != gone {
                let i = live.index_of(pid);
                assert(live[i] == pid);
                assert(after[if i < k {
                    i
                } else {
                    i - 1
                }] == pid);
            }
            if after.contains(pid) {
                let i = after.index_of(pid);
                assert(after[i] == pid);
                assert(live[if i < k {
                    i
                } else {
                    i + 1
                }] == pid);
            }
        },
    }
}

/// Only a process that is alive does anything, and one that starts is a new one.
pub proof fn law_only_the_living_act(live: Seq<Pid>, event: DeployOutputEvent)
    requires
        possible(live, event),
    ensures
        exists|pid: Pid|
            #[trigger] live.contains(pid) && match event {
                DeployOutputEvent::Spawn(by, new_pid) => by == pid && new_pid != pid
                    && !live.contains(new_pid),
                DeployOutputEvent::Output(by, _, _) => by == pid,
                DeployOutputEvent::Exit(by, _) => by == pid,
            },
        forall|other: Seq<Pid>|
            #![trigger possible(other, event)]
            !(event is Spawn) && other.len() == 0 ==> !possible(other, event),
{
    match event {
        DeployOutputEvent::Spawn(by, new_pid) => {
            assert(live.contains(by));
        },
        DeployOutputEvent::Output(by, _, _) => {
            assert(live.contains(by));
        },
        DeployOutputEvent::Exit(by, _) => {
            assert(live.contains(by));
        },
    }
}

/// A program in which some process fails ends without a certain status, however
/// many others succeed, and whenever they do.
pub proof fn law_one_failure_is_enough(events: Seq<DeployOutputEvent>, i: int)
    requires
        0 <= i < events.len(),
        events[i] matches DeployOutputEvent::Exit(_, status) && status != ExitStatus::Success,
    ensures
        status_after_all(ExitStatus::Success, events) == ExitStatus::Error(
            crate::exit::ExitStatusError::Indeterminate,
        ),
{
    lemma_failure(ExitStatus::Success, events, i);
}

proof fn lemma_failure(status: ExitStatus, events: Seq<DeployOutputEvent>, i: int)
    requires
        status == ExitStatus::Success || status == ExitStatus::Error(
            crate::exit::ExitStatusError::Indeterminate,
        ),
        0 <= i < events.len() ==> (events[i] matches DeployOutputEvent::Exit(_, other) && other
            != ExitStatus::Success),
        status == ExitStatus::Success ==> 0 <= i < events.len(),
    ensures
        status_after_all(status, events) == ExitStatus::Error(
            crate::exit::ExitStatusError::Indeterminate,
        ),
    decreases events.len(),
{
    if events.len() > 0 {
        let rest = events.skip(1);
        if 0 < i < events.len() {
            assert(rest[i - 1] == events[i]);
            lemma_failure(status_after(status, events[0]), rest, i - 1);
        } else {
            lemma_failure(status_after(status, events[0]), rest, -1);
        }
    }
}

} // verus!
