//! Which events are handed out, and when the next moment is that something is
//! due.

use vstd::prelude::*;

verus! {

/// The key of events that are for nobody.
pub const NOBODY: u64 = 0xffff_ffff_ffff_ffff;

/// How many events are asked for at a time.
pub const EPOLL_BUF_LENGTH: usize = 100;

/// Something that is due for `key` at a moment. The slot tells it from all
/// others.
#[derive(Copy, Clone, PartialEq, Eq, Debug, Structural)]
pub struct TimeEvent {
    pub instant: u64,
    pub key: u64,
    pub slot: u64,
}

/// What is due at which moment.
pub struct Timer {
    events: Vec<TimeEvent>,
    next_slot: u64,
}

/// Whether event `i` is the first to come due: the earliest, and of those at one
/// moment the one that was added first.
pub open spec fn is_first(events: Seq<TimeEvent>, i: int) -> bool {
    &&& 0 <= i < events.len()
    &&& forall|j: int| 0 <= j < events.len() ==> events[i].instant <= (#[trigger] events[j]).instant
    &&& forall|j: int| 0 <= j < i ==> events[i].instant < (#[trigger] events[j]).instant
}

impl Timer {
    /// What is due, in the order in which it was added.
    pub closed spec fn due(&self) -> Seq<TimeEvent> {
        self.events@
    }

    /// The slot that is given out next.
    pub closed spec fn slot(&self) -> int {
        self.next_slot as int
    }

    /// Each slot is given out once.
    pub open spec fn wf(&self) -> bool {
        &&& forall|i: int|
            0 <= i < self.due().len() ==> (#[trigger] self.due()[i]).slot < self.slot()
        &&& forall|i: int, j: int|
            #![trigger self.due()[i], self.due()[j]]
            0 <= i < j < self.due().len() ==> self.due()[i].slot != self.due()[j].slot
    }

    /// Nothing is due.
    pub fn new() -> (r: Timer)
        ensures
            r.wf(),
            r.due() == Seq::<TimeEvent>::empty(),
            r.slot() == 0,
    {
        Timer { events: Vec::new(), next_slot: 0 }
    }

    /// Adds something that is due at `instant`, and gives its slot.
    pub fn push(&mut self, instant: u64, key: u64) -> (slot: u64)
        requires
            old(self).wf(),
            old(self).slot() < u64::MAX,
        ensures
            final(self).wf(),
            slot == old(self).slot(),
            final(self).slot() == old(self).slot() + 1,
            final(self).due() == old(self).due().push(TimeEvent { instant, key, slot }),
    {
        let slot: u64 = self.next_slot;
        self.next_slot = slot + 1;
        self.events.push(TimeEvent { instant, key, slot });
        proof {
            let before = old(self).due();
            assert forall|i: int| 0 <= i < self.due().len() implies (#[trigger] self.due()[i]).slot
                < self.slot() by {
                if i < before.len() {
                    assert(self.due()[i] == before[i]);
                }
            }
            assert forall|i: int, j: int|
                #![trigger self.due()[i], self.due()[j]]
                0 <= i < j < self.due().len() implies self.due()[i].slot != self.due()[j].slot by {
                assert(self.due()[i] == before[i]);
                if j < before.len() {
                    assert(self.due()[j] == before[j]);
                }
            }
        }
        slot
    }

    /// Takes out what has the given slot; it may have come due already.
    pub fn remove(&mut self, slot: u64) -> (r: Option<TimeEvent>)
        requires
            old(self).wf(),
        ensures
            final(self).wf(),
            final(self).slot() == old(self).slot(),
            match r {
                Some(event) => event.slot == slot && exists|i: int|
                    0 <= i < old(self).due().len() && event == #[trigger] old(self).due()[i]
                        && final(self).due() == old(self).due().remove(i),
                None => final(self).due() == old(self).due() && forall|i: int|
                    0 <= i < old(self).due().len() ==> (#[trigger] old(self).due()[i]).slot != slot,
            },
    {
        let n: usize = self.events.len();
        for i in 0..n
            invariant
                self.wf(),
                *self == *old(self),
                n == self.events.len(),
                forall|j: int| 0 <= j < i ==> (#[trigger] self.due()[j]).slot != slot,
        {
            assert(self.due()[i as int] == self.events@[i as int]);
            if self.events[i].slot == slot {
                let event = self.events[i];
                let _ = self.events.remove(i);
                proof {
                    lemma_remove_keeps_slots(old(self).due(), i as int, self.next_slot as int);
                }
                return Some(event);
            }
        }
        None
    }

    /// Where what comes due first stands.
    fn first(&self) -> (r: Option<usize>)
        ensures
            match r {
                Some(i) => is_first(self.due(), i as int),
                None => self.due().len() == 0,
            },
    {
        if self.events.len() == 0 {
            return None;
        }
        let mut best: usize = 0;
        for i in 1..self.events.len()
            invariant
                best < self.events.len(),
                best < i,
                forall|j: int|
                    0 <= j < i ==> self.due()[best as int].instant <= (
                    #[trigger] self.due()[j]).instant,
                forall|j: int|
                    0 <= j < best ==> self.due()[best as int].instant < (
                    #[trigger] self.due()[j]).instant,
        {
            if self.events[i].instant < self.events[best].instant {
                best = i;
            }
        }
        Some(best)
    }

    /// The moment at which the first thing comes due.
    pub fn peek(&self) -> (r: Option<u64>)
        ensures
            match r {
                Some(instant) => exists|i: int|
                    is_first(self.due(), i) && instant == #[trigger] self.due()[i].instant,
                None => self.due().len() == 0,
            },
    {
        match self.first() {
            Some(i) => {
                assert(is_first(self.due(), i as int));
                Some(self.events[i].instant)
            },
            None => None,
        }
    }

    /// Takes out what comes due first, if it is due by `now`.
    pub fn pop_due(&mut self, now: u64) -> (r: Option<TimeEvent>)
        requires
            old(self).wf(),
        ensures
            final(self).wf(),
            final(self).slot() == old(self).slot(),
            match r {
                Some(event) => event.instant <= now && exists|i: int|
                    is_first(old(self).due(), i) && event == #[trigger] old(self).due()[i]
                        && final(self).due() == old(self).due().remove(i),
                None => final(self).due() == old(self).due() && forall|i: int|
                    0 <= i < old(self).due().len() ==> now < (#[trigger] old(self).due()[i]).instant,
            },
    {
        match self.first() {
            Some(i) => {
                let event = self.events[i];
                assert(is_first(self.due(), i as int));
                if event.instant > now {
                    return None;
                }
                let _ = self.events.remove(i);
                proof {
                    lemma_remove_keeps_slots(old(self).due(), i as int, self.next_slot as int);
                }
                Some(event)
            },
            None => None,
        }
    }
}

impl Default for Timer {
    fn default() -> (r: Timer)
        ensures
            r.wf(),
            r.due() == Seq::<TimeEvent>::empty(),
            r.slot() == 0,
    {
        Timer::new()
    }
}

proof fn lemma_remove_keeps_slots(events: Seq<TimeEvent>, i: int, next: int)
    requires
        0 <= i < events.len(),
        forall|a: int| 0 <= a < events.len() ==> (#[trigger] events[a]).slot < next,
        forall|a: int, b: int|
            #![trigger events[a], events[b]]
            0 <= a < b < events.len() ==> events[a].slot != events[b].slot,
    ensures
        forall|a: int| 0 <= a < events.len() - 1 ==> (#[trigger] events.remove(i)[a]).slot < next,
        forall|a: int, b: int|
            #![trigger events.remove(i)[a], events.remove(i)[b]]
            0 <= a < b < events.len() - 1 ==> events.remove(i)[a].slot != events.remove(i)[b].slot,
{
    let left = events.remove(i);
    assert forall|a: int| 0 <= a < left.len() implies (#[trigger] left[a]).slot < next by {
        let a1 = if a < i { a } else { a + 1 };
        assert(left[a] == events[a1]);
    }
    assert forall|a: int, b: int|
        #![trigger left[a], left[b]]
        0 <= a < b < left.len() implies left[a].slot != left[b].slot by {
        let a1 = if a < i { a } else { a + 1 };
        let b1 = if b < i { b } else { b + 1 };
        assert(left[a] == events[a1]);
        assert(left[b] == events[b1]);
    }
}

/// Things come due in the order of their moments: whatever is still due after
/// something was taken out is due no earlier than it.
pub proof fn law_due_in_order(events: Seq<TimeEvent>, i: int, j: int)
    requires
        is_first(events, i),
        0 <= j < events.len() - 1,
    ensures
        events[i].instant <= events.remove(i)[j].instant,
{
    let k = if j < i { j } else { j + 1 };
    assert(events.remove(i)[j] == events[k]);
}

/// The moment for which the system's timer is set, and during a wait the keys
/// whose events are not to be handed out, because what they are for is gone.
pub struct Epoll {
    timeout: Option<u64>,
    strip: Option<Vec<u64>>,
}

/// An event for `key`, with what has happened as a number of the system's.
#[derive(Copy, Clone, PartialEq, Eq, Debug, Structural)]
pub struct EpollEvent {
    pub key: u64,
    pub flags: u32,
}

/// Whether an event is handed out.
pub open spec fn handed_out(event: EpollEvent, strip: Set<u64>) -> bool {
    event.key != NOBODY && !strip.contains(event.key)
}

impl Epoll {
    /// The moment for which the system's timer is set.
    pub closed spec fn set_for(&self) -> Option<u64> {
        self.timeout
    }

    /// Whether a wait is going on.
    pub closed spec fn waiting(&self) -> bool {
        self.strip is Some
    }

    /// The keys whose events are not to be handed out.
    pub closed spec fn gone(&self) -> Set<u64> {
        match self.strip {
            Some(strip) => strip@.to_set(),
            None => Set::empty(),
        }
    }

    /// The timer is not set, and no wait is going on.
    pub fn new() -> (r: Epoll)
        ensures
            r.set_for() is None,
            !r.waiting(),
    {
        Epoll { timeout: None, strip: None }
    }

    /// Something is watched for `key`: its events are handed out again.
    pub fn add(&mut self, key: u64)
        requires
            key != NOBODY,
        ensures
            final(self).set_for() == old(self).set_for(),
            final(self).waiting() == old(self).waiting(),
            final(self).gone() == old(self).gone().remove(key),
    {
        let mut strip: Option<Vec<u64>> = None;
        core::mem::swap(&mut strip, &mut self.strip);
        match strip {
            Some(strip) => {
                let mut kept: Vec<u64> = Vec::new();
                for i in 0..strip.len()
                    invariant
                        forall|k: u64|
                            kept@.contains(k) <==> k != key && exists|j: int|
                                0 <= j < i && #[trigger] strip@[j] == k,
                {
                    let ghost before = kept@;
                    if strip[i] != key {
                        kept.push(strip[i]);
                        proof {
                            assert forall|k: u64|
                                kept@.contains(k) <==> k != key && exists|j: int|
                                    0 <= j < i + 1 && #[trigger] strip@[j] == k by {
                                lemma_push_contains(before, strip@[i as int], k);
                            }
                        }
                    }
                }
                self.strip = Some(kept);
                assert(self.gone() =~= old(self).gone().remove(key)) by {
                    assert forall|k: u64| self.gone().contains(k) <==> old(self).gone().remove(
                        key,
                    ).contains(k) by {
                        assert(kept@.to_set().contains(k) == kept@.contains(k));
                        assert(strip@.to_set().contains(k) == strip@.contains(k));
                    }
                }
            },
            None => {
                assert(old(self).gone().remove(key) =~= Set::<u64>::empty());
            },
        }
    }

    /// Something that was watched for `key` is not any more: during a wait its
    /// events are not handed out.
    pub fn delete(&mut self, key: u64)
        ensures
            final(self).set_for() == old(self).set_for(),
            final(self).waiting() == old(self).waiting(),
            final(self).gone() == (if old(self).waiting() {
                old(self).gone().insert(key)
            } else {
                Set::empty()
            }),
    {
        let mut strip: Option<Vec<u64>> = None;
        core::mem::swap(&mut strip, &mut self.strip);
        if let Some(strip) = strip {
            let ghost before = strip@;
            let mut strip = strip;
            strip.push(key);
            proof {
                assert forall|k: u64| strip@.to_set().contains(k) <==> before.to_set().insert(
                    key,
                ).contains(k) by {
                    lemma_push_contains(before, key, k);
                }
                assert(strip@.to_set() =~= before.to_set().insert(key));
            }
            self.strip = Some(strip);
        }
    }

    /// Sees to it that the system's timer is set for `timeout` or earlier, and
    /// says whether it has to be set anew.
    pub fn update_timeout(&mut self, timeout: u64) -> (r: bool)
        ensures
            final(self).waiting() == old(self).waiting(),
            final(self).gone() == old(self).gone(),
            r == (old(self).set_for() matches Some(current) ==> timeout < current),
            final(self).set_for() == (if r {
                Some(timeout)
            } else {
                old(self).set_for()
            }),
    {
        let sooner = match self.timeout {
            Some(current) => timeout < current,
            None => true,
        };
        if sooner {
            self.timeout = Some(timeout);
        }
        sooner
    }

    /// A wait starts.
    pub fn begin_wait(&mut self)
        requires
            !old(self).waiting(),
        ensures
            final(self).waiting(),
            final(self).gone() == Set::<u64>::empty(),
            final(self).set_for() == old(self).set_for(),
    {
        self.strip = Some(Vec::new());
        assert(self.gone() =~= Set::<u64>::empty()) by {
            assert forall|k: u64| !self.gone().contains(k) by {}
        }
    }

    /// A wait ends with `events`; `fired` says that the system's timer has gone
    /// off, after which it is not set. Gives the events to be handed out, and
    /// whether there may be more.
    pub fn end_wait(&mut self, events: &Vec<EpollEvent>, fired: bool) -> (r: (Vec<EpollEvent>, bool))
        requires
            old(self).waiting(),
        ensures
            !final(self).waiting(),
            final(self).set_for() == (if fired {
                None
            } else {
                old(self).set_for()
            }),
            r.0@ == events@.filter(|event: EpollEvent| handed_out(event, old(self).gone())),
            r.1 == (events.len() >= EPOLL_BUF_LENGTH),
    {
        let ghost gone = self.gone();
        let mut strip: Option<Vec<u64>> = None;
        core::mem::swap(&mut strip, &mut self.strip);
        if fired {
            self.timeout = None;
        }
        let strip = strip.unwrap();
        let ghost keep = |event: EpollEvent| handed_out(event, gone);
        let mut out: Vec<EpollEvent> = Vec::new();
        assert(events@.take(0).filter(keep) =~= Seq::<EpollEvent>::empty()) by {
            reveal(Seq::filter);
        }
        for i in 0..events.len()
            invariant
                gone == strip@.to_set(),
                keep == (|event: EpollEvent| handed_out(event, gone)),
                out@ == events@.take(i as int).filter(keep),
        {
            let event = events[i];
            let stripped = contains(&strip, event.key);
            proof {
                assert(gone.contains(event.key) == strip@.contains(event.key));
                assert(events@.take(i + 1).drop_last() =~= events@.take(i as int));
                reveal(Seq::filter);
            }
            if event.key != NOBODY && !stripped {
                out.push(event);
            }
        }
        assert(events@.take(events.len() as int) =~= events@);
        (out, events.len() >= EPOLL_BUF_LENGTH)
    }
}

impl Default for Epoll {
    fn default() -> (r: Epoll)
        ensures
            r.set_for() is None,
            !r.waiting(),
    {
        Epoll::new()
    }
}

proof fn lemma_push_contains(s: Seq<u64>, x: u64, k: u64)
    ensures
        s.push(x).contains(k) <==> s.contains(k) || k == x,
{
    if s.contains(k) {
        let i = choose|i: int| 0 <= i < s.len() && s[i] == k;
        assert(s.push(x)[i] == k);
    }
    if k == x {
        assert(s.push(x)[s.len() as int] == k);
    }
    if s.push(x).contains(k) && k != x {
        let i = choose|i: int| 0 <= i < s.push(x).len() && s.push(x)[i] == k;
        assert(s[i] == k);
    }
}

fn contains(keys: &Vec<u64>, key: u64) -> (r: bool)
    ensures
        r == keys@.contains(key),
{
    for i in 0..keys.len()
        invariant
            forall|j: int| 0 <= j < i ==> keys@[j] != key,
    {
        if keys[i] == key {
            return true;
        }
    }
    false
}

/// Nothing is handed out for what is gone, and nothing else is held back.
pub proof fn law_events_for_what_is_gone(events: Seq<EpollEvent>, gone: Set<u64>, event: EpollEvent)
    ensures
        events.filter(|e: EpollEvent| handed_out(e, gone)).contains(event) <==> events.contains(
            event,
        ) && event.key != NOBODY && !gone.contains(event.key),
{
    lemma_filter_contains(events, |e: EpollEvent| handed_out(e, gone), event);
}

proof fn lemma_filter_contains(
    events: Seq<EpollEvent>,
    keep: spec_fn(EpollEvent) -> bool,
    event: EpollEvent,
)
    ensures
        events.filter(keep).contains(event) <==> events.contains(event) && keep(event),
    decreases events.len(),
{
    reveal(Seq::filter);
    if events.len() > 0 {
        let sub = events.drop_last();
        let before = sub.filter(keep);
        lemma_filter_contains(sub, keep, event);
        assert(events =~= sub.push(events.last()));
        assert(events.contains(event) <==> sub.contains(event) || event == events.last()) by {
            if sub.contains(event) {
                let j = choose|j: int| 0 <= j < sub.len() && sub[j] == event;
                assert(events[j] == event);
            }
            if event == events.last() {
                assert(events[events.len() - 1] == event);
            }
            if events.contains(event) && event != events.last() {
                let j = choose|j: int| 0 <= j < events.len() && events[j] == event;
                assert(sub[j] == event);
            }
        }
        if keep(events.last()) {
            assert(events.filter(keep) =~= before.push(events.last()));
            assert(events.filter(keep).contains(event) <==> before.contains(event) || event
                == events.last()) by {
                let kept = before.push(events.last());
                if before.contains(event) {
                    let j = choose|j: int| 0 <= j < before.len() && before[j] == event;
                    assert(kept[j] == event);
                }
                if event == events.last() {
                    assert(kept[before.len() as int] == event);
                }
                if kept.contains(event) && event != events.last() {
                    let j = choose|j: int| 0 <= j < kept.len() && kept[j] == event;
                    assert(before[j] == event);
                }
            }
        }
    }
}

/// What is due at which moment, and what is waited for.
pub struct EpollExecutor {
    pub epoll: Epoll,
    pub timer: Timer,
}

/// How the system is waited for.
#[derive(Copy, Clone, PartialEq, Eq, Debug)]
pub struct Wait {
    /// Whether it is only looked at what has happened, rather than waited until
    /// something does.
    pub nonblock: bool,
    /// The moment for which the system's timer is to be set first.
    pub set_timer: Option<u64>,
}

impl EpollExecutor {
    /// Nothing is due or waited for.
    pub fn new() -> (r: EpollExecutor)
        ensures
            r.timer.wf(),
            r.timer.due() == Seq::<TimeEvent>::empty(),
            r.epoll.set_for() is None,
            !r.epoll.waiting(),
    {
        EpollExecutor { epoll: Epoll::new(), timer: Timer::new() }
    }

    /// Adds something that is due at `instant`. Gives its slot, and whether the
    /// system's timer has to be set for it.
    pub fn add_instant(&mut self, instant: u64, key: u64) -> (r: (u64, bool))
        requires
            old(self).timer.wf(),
            old(self).timer.slot() < u64::MAX,
        ensures
            final(self).timer.wf(),
            r.0 == old(self).timer.slot(),
            final(self).timer.due() == old(self).timer.due().push(
                TimeEvent { instant, key, slot: r.0 },
            ),
            r.1 == (old(self).epoll.set_for() matches Some(current) ==> instant < current),
            final(self).epoll.set_for() == (if r.1 {
                Some(instant)
            } else {
                old(self).epoll.set_for()
            }),
            final(self).epoll.waiting() == old(self).epoll.waiting(),
            final(self).epoll.gone() == old(self).epoll.gone(),
    {
        let slot: u64 = self.timer.push(instant, key);
        let set = self.epoll.update_timeout(instant);
        (slot, set)
    }

    /// How the system is waited for once everything that was due has been seen
    /// to: if anything was, it is only looked at what has happened. The system's
    /// timer is set for what comes due first, if that is earlier than what it is
    /// set for.
    pub fn prepare(&mut self, done_any: bool) -> (r: Wait)
        ensures
            final(self).timer == old(self).timer,
            final(self).epoll.waiting() == old(self).epoll.waiting(),
            final(self).epoll.gone() == old(self).epoll.gone(),
            r.nonblock == done_any,
            match r.set_timer {
                Some(instant) => final(self).epoll.set_for() == Some(instant) && (old(
                    self,
                ).epoll.set_for() matches Some(current) ==> instant < current) && exists|i: int|
                    is_first(old(self).timer.due(), i) && instant == #[trigger] old(
                        self,
                    ).timer.due()[i].instant,
                None => final(self).epoll.set_for() == old(self).epoll.set_for() && forall|i: int|
                    0 <= i < old(self).timer.due().len() ==> (old(self).epoll.set_for() matches Some(
                        current,
                    ) && current <= (#[trigger] old(self).timer.due()[i]).instant),
            },
    {
        match self.timer.peek() {
            Some(instant) => {
                let ghost first = choose|i: int|
                    is_first(old(self).timer.due(), i) && instant == #[trigger] old(
                        self,
                    ).timer.due()[i].instant;
                if self.epoll.update_timeout(instant) {
                    assert(is_first(old(self).timer.due(), first));
                    Wait { nonblock: done_any, set_timer: Some(instant) }
                } else {
                    Wait { nonblock: done_any, set_timer: None }
                }
            },
            None => Wait { nonblock: done_any, set_timer: None },
        }
    }
}

impl Default for EpollExecutor {
    fn default() -> (r: EpollExecutor)
        ensures
            r.timer.wf(),
            r.timer.due() == Seq::<TimeEvent>::empty(),
            r.epoll.set_for() is None,
            !r.epoll.waiting(),
    {
        EpollExecutor::new()
    }
}

/// Only one thing is the first to come due, and of what is due at the same moment it
/// is what was added first.
pub proof fn law_added_first_due_first(events: Seq<TimeEvent>, i: int, j: int)
    requires
        is_first(events, i),
        0 <= j < events.len(),
        j != i,
    ensures
        events[j].instant == events[i].instant ==> i < j,
        events[i].instant <= events[j].instant,
        !is_first(events, j),
{
    if j < i {
        assert(events[i].instant < events[j].instant);
    }
    if is_first(events, j) {
        assert(events[j].instant <= events[i].instant);
        if i < j {
            assert(events[j].instant < events[i].instant);
        }
    }
}

/// If anything is due, something is the first to come due.
pub proof fn law_something_is_first(events: Seq<TimeEvent>)
    requires
        events.len() > 0,
    ensures
        exists|i: int| is_first(events, i),
    decreases events.len(),
{
    let last = events.len() - 1;
    if last == 0 {
        assert(is_first(events, 0));
    } else {
        let before = events.drop_last();
        law_something_is_first(before);
        let i = choose|i: int| is_first(before, i);
        if events[last].instant < before[i].instant {
            assert forall|j: int| 0 <= j < last implies events[last].instant < (
            #[trigger] events[j]).instant by {
                assert(before[i].instant <= before[j].instant);
            }
            assert(is_first(events, last));
        } else {
            assert forall|j: int| 0 <= j < events.len() implies events[i].instant <= (
            #[trigger] events[j]).instant by {
                if j < last {
                    assert(before[i].instant <= before[j].instant);
                }
            }
            assert forall|j: int| 0 <= j < i implies events[i].instant < (
            #[trigger] events[j]).instant by {
                assert(before[i].instant < before[j].instant);
            }
            assert(is_first(events, i));
        }
    }
}

} // verus!
