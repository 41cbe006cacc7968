//! The middleman between a cluster and those who run programs on it.

use crate::error::TrySpawnError;
use crate::event::{DeployInputEvent, DeployOutputEvent, ProcessInputEvent, ProcessOutputEvent};
use crate::pid::Pid;
use crate::resources::Resources;
use crate::session::find;
use vstd::prelude::*;

verus! {

/// How many seconds a program that is asked for its requirements has to answer.
pub const RECCE_TIMEOUT: u64 = 10;

/// What a program is placed by: what was asked for it, or else what the program
/// itself answered.
pub open spec fn settled(asked: Option<Resources>, answered: Option<Resources>) -> Result<
    Resources,
    TrySpawnError,
> {
    match (asked, answered) {
        (Some(resources), _) => Ok(resources),
        (None, Some(resources)) => Ok(resources),
        (None, None) => Err(TrySpawnError::Recce),
    }
}

/// Whether the program has to be asked for its requirements.
pub fn needs_recce(asked: &Option<Resources>) -> (r: bool)
    ensures
        r == (*asked is None),
{
    asked.is_none()
}

/// What a program is placed by.
pub fn settle(asked: Option<Resources>, answered: Option<Resources>) -> (r: Result<
    Resources,
    TrySpawnError,
>)
    ensures
        r == settled(asked, answered),
{
    match asked {
        Some(resources) => Ok(resources),
        None => match answered {
            Some(resources) => Ok(resources),
            None => Err(TrySpawnError::Recce),
        },
    }
}

/// What becomes of the answer to a request: that of the scheduler, if the
/// program could be placed at all.
pub fn outcome(
    placed_by: Result<Resources, TrySpawnError>,
    scheduled: Result<Pid, TrySpawnError>,
) -> (r: Result<Pid, TrySpawnError>)
    ensures
        r == match placed_by {
            Ok(_) => scheduled,
            Err(e) => Err(e),
        },
{
    match placed_by {
        Ok(_) => scheduled,
        Err(e) => Err(e),
    }
}

/// What follows from a report of one process.
pub struct Relayed {
    /// The report, as one of the program.
    pub event: DeployOutputEvent,
    /// A process that is to be watched from now on.
    pub watch: Option<Pid>,
    /// Whether the process is watched any longer.
    pub more: bool,
}

/// What follows from a report of `pid`: it is passed on, a process that it
/// starts is watched too, and nothing more is expected when it exits.
pub fn relay(pid: Pid, event: ProcessOutputEvent) -> (r: Relayed)
    ensures
        r.event == event.of(pid),
        r.watch == match event {
            ProcessOutputEvent::Spawn(new_pid) => Some(new_pid),
            _ => None,
        },
        r.more == !(event is Exit),
{
    let watch = match &event {
        ProcessOutputEvent::Spawn(new_pid) => Some(*new_pid),
        _ => None,
    };
    let more = match &event {
        ProcessOutputEvent::Exit(_) => false,
        _ => true,
    };
    Relayed { event: event.into_deploy(pid), watch, more }
}

/// Something that a process is told.
pub struct Order {
    pub pid: Pid,
    pub event: ProcessInputEvent,
}

/// A connection of one who runs a program.
#[derive(Clone, Debug)]
pub struct Connection {
    /// The processes of the program that can be told something.
    pub live: Vec<Pid>,
    /// Whether the other side is still listened to.
    pub reading: bool,
    /// Whether the other side is still told what happens.
    pub writing: bool,
}

/// A state of a connection.
#[verifier::ext_equal]
pub struct ConnectionView {
    pub live: Seq<Pid>,
    pub reading: bool,
    pub writing: bool,
}

/// An order to each of `pids` to end.
pub open spec fn kills(pids: Seq<Pid>) -> Seq<Order> {
    Seq::new(pids.len(), |i: int| Order { pid: pids[i], event: ProcessInputEvent::Kill })
}

impl ConnectionView {
    /// Whether `event` can happen: a process that starts is new, and one that
    /// exits was there.
    pub open spec fn possible(self, event: DeployOutputEvent) -> bool {
        self.writing ==> match event {
            DeployOutputEvent::Spawn(_, new_pid) => !self.live.contains(new_pid),
            DeployOutputEvent::Output(_, _, _) => true,
            DeployOutputEvent::Exit(pid, _) => self.live.contains(pid),
        }
    }

    /// The connection after `event`.
    pub open spec fn after(self, event: DeployOutputEvent) -> ConnectionView {
        if self.writing {
            ConnectionView {
                live: match event {
                    DeployOutputEvent::Spawn(_, new_pid) => self.live.push(new_pid),
                    DeployOutputEvent::Output(_, _, _) => self.live,
                    DeployOutputEvent::Exit(pid, _) => self.live.remove(self.live.index_of(pid)),
                },
                ..self
            }
        } else {
            self
        }
    }

    /// The connection after it was told `said`, and what processes are told
    /// then. `None` stands for a connection that broke.
    pub open spec fn told(self, said: Option<DeployInputEvent>) -> (ConnectionView, Seq<Order>) {
        match said {
            Some(DeployInputEvent::Input(pid, fd, input)) => (
                self,
                if self.live.contains(pid) {
                    seq![Order { pid, event: ProcessInputEvent::Input(fd, input) }]
                } else {
                    seq![]
                },
            ),
            Some(DeployInputEvent::Kill(Some(pid))) => (
                self,
                if self.live.contains(pid) {
                    seq![Order { pid, event: ProcessInputEvent::Kill }]
                } else {
                    seq![]
                },
            ),
            _ => (ConnectionView { reading: false, ..self }, kills(self.live)),
        }
    }

    /// The connection after a report could not be written: it is given up.
    pub open spec fn broken(self) -> ConnectionView {
        ConnectionView { live: seq![], writing: false, ..self }
    }
}

impl View for Connection {
    type V = ConnectionView;

    open spec fn view(&self) -> ConnectionView {
        ConnectionView { live: self.live@, reading: self.reading, writing: self.writing }
    }
}

impl Connection {
    /// The connection of one who has just started a program, whose only process
    /// is `pid`.
    pub fn new(pid: Pid) -> (r: Connection)
        ensures
            r@ == (ConnectionView { live: seq![pid], reading: true, writing: true }),
    {
        let mut live: Vec<Pid> = Vec::new();
        live.push(pid);
        assert(live@ =~= seq![pid]);
        Connection { live, reading: true, writing: true }
    }

    /// Whether `event` can happen.
    pub fn accepts(&self, event: &DeployOutputEvent) -> (r: bool)
        ensures
            r == self@.possible(*event),
    {
        !self.writing || match event {
            DeployOutputEvent::Spawn(_, new_pid) => find(&self.live, *new_pid).is_none(),
            DeployOutputEvent::Output(_, _, _) => true,
            DeployOutputEvent::Exit(pid, _) => find(&self.live, *pid).is_some(),
        }
    }

    /// Takes note of `event`, and says whether it is to be written to the other
    /// side.
    pub fn report(&mut self, event: &DeployOutputEvent) -> (r: bool)
        requires
            old(self)@.possible(*event),
            old(self)@.live.no_duplicates(),
        ensures
            final(self)@ == old(self)@.after(*event),
            final(self)@.live.no_duplicates(),
            r == old(self)@.writing,
    {
        if !self.writing {
            return false;
        }
        match event {
            DeployOutputEvent::Spawn(_, new_pid) => {
                self.live.push(*new_pid);
            },
            DeployOutputEvent::Output(_, _, _) => {},
            DeployOutputEvent::Exit(pid, _) => {
                let i: usize = find(&self.live, *pid).unwrap();
                proof {
                    let k = self.live@.index_of(*pid);
                    assert(0 <= k < self.live@.len() && self.live@[k] == *pid);
                }
                let _ = self.live.remove(i);
            },
        }
        true
    }

    /// Gives the connection up because a report could not be written, and tells
    /// all its processes to end.
    pub fn fail(&mut self) -> (orders: Vec<Order>)
        ensures
            final(self)@ == old(self)@.broken(),
            orders@ == kills(old(self)@.live),
    {
        let orders = self.kill_all();
        self.live = Vec::new();
        self.writing = false;
        assert(self.live@ =~= seq![]);
        orders
    }

    fn kill_all(&self) -> (orders: Vec<Order>)
        ensures
            orders@ == kills(self@.live),
    {
        let mut orders: Vec<Order> = Vec::new();
        for i in 0..self.live.len()
            invariant
                orders@ == kills(self@.live.take(i as int)),
        {
            orders.push(Order { pid: self.live[i], event: ProcessInputEvent::Kill });
            assert(orders@ =~= kills(self@.live.take(i + 1)));
        }
        assert(self@.live.take(self@.live.len() as int) =~= self@.live);
        orders
    }

    /// Takes note of what the other side says, `None` once it cannot be
    /// understood any more, and gives what processes are told then.
    pub fn hear(&mut self, said: Option<DeployInputEvent>) -> (orders: Vec<Order>)
        ensures
            final(self)@ == old(self)@.told(said).0,
            orders@ == old(self)@.told(said).1,
    {
        let mut orders: Vec<Order> = Vec::new();
        match said {
            Some(DeployInputEvent::Input(pid, fd, input)) => {
                if find(&self.live, pid).is_some() {
                    orders.push(Order { pid, event: ProcessInputEvent::Input(fd, input) });
                }
            },
            Some(DeployInputEvent::Kill(Some(pid))) => {
                if find(&self.live, pid).is_some() {
                    orders.push(Order { pid, event: ProcessInputEvent::Kill });
                }
            },
            _ => {
                orders = self.kill_all();
                self.reading = false;
            },
        }
        assert(orders@ =~= old(self)@.told(said).1);
        orders
    }
}

/// What one side of a connection does never reaches a process of another: all
/// that is told, is told to a process of the connection.
pub proof fn law_orders_stay_within(connection: ConnectionView, said: Option<DeployInputEvent>)
    ensures
        forall|i: int|
            0 <= i < connection.told(said).1.len() ==> connection.live.contains(
                (#[trigger] connection.told(said).1[i]).pid,
            ),
        forall|i: int|
            0 <= i < kills(connection.live).len() ==> connection.live.contains(
                (#[trigger] kills(connection.live)[i]).pid,
            ),
{
}

/// When a connection breaks, in one direction or the other, every process of it
/// is told to end.
pub proof fn law_nobody_is_left_behind(connection: ConnectionView, pid: Pid)
    requires
        connection.live.contains(pid),
    ensures
        exists|i: int|
            0 <= i < kills(connection.live).len() && #[trigger] kills(connection.live)[i] == (Order {
                pid,
                event: ProcessInputEvent::Kill,
            }),
        connection.told(None).1 == kills(connection.live),
        connection.told(Some(DeployInputEvent::Kill(None))).1 == kills(connection.live),
        connection.broken().live.len() == 0,
{
    let i = connection.live.index_of(pid);
    assert(connection.live[i] == pid);
    assert(kills(connection.live)[i] == (Order { pid, event: ProcessInputEvent::Kill }));
}

/// Input reaches the process that it names, and no other, unchanged. A process
/// that is not there, or is there no more, gets none.
pub proof fn law_input_reaches_its_process(
    connection: ConnectionView,
    pid: Pid,
    fd: i32,
    input: Vec<u8>,
)
    ensures
        ({
            let (after, orders) = connection.told(Some(DeployInputEvent::Input(pid, fd, input)));
            &&& after == connection
            &&& connection.live.contains(pid) ==> orders.len() == 1 && orders[0].pid == pid
                && orders[0].event == ProcessInputEvent::Input(fd, input)
            &&& !connection.live.contains(pid) ==> orders.len() == 0
        }),
{
}

/// One process can be ended alone: it is told to, and no other is. Whoever asks
/// for it is listened to further.
pub proof fn law_one_process_is_ended_alone(connection: ConnectionView, pid: Pid)
    ensures
        ({
            let (after, orders) = connection.told(Some(DeployInputEvent::Kill(Some(pid))));
            &&& after == connection
            &&& connection.live.contains(pid) ==> orders.len() == 1 && orders[0].pid == pid
                && orders[0].event is Kill
            &&& !connection.live.contains(pid) ==> orders.len() == 0
        }),
{
}

/// When all is to end, each process is told so once, and in no other way; the
/// other side is not listened to any more, but still hears what happens.
pub proof fn law_the_end_of_a_connection(connection: ConnectionView)
    requires
        connection.live.no_duplicates(),
    ensures
        forall|said: Option<DeployInputEvent>|
            #![trigger connection.told(said)]
            said is None || said == Some(DeployInputEvent::Kill(None)) ==> {
                let (after, orders) = connection.told(said);
                &&& orders.len() == connection.live.len()
                &&& forall|i: int|
                    0 <= i < orders.len() ==> (#[trigger] orders[i]).pid == connection.live[i]
                        && orders[i].event is Kill
                &&& after.live == connection.live
                &&& after.writing == connection.writing
                &&& !after.reading
            },
        !connection.broken().writing,
        connection.broken().reading == connection.reading,
{
}

/// The processes that can be told something are those that were started and have
/// not ended: a start adds the one that is new, an end takes away the one that
/// ended, and output changes nothing.
pub proof fn law_live_are_those_started_and_not_ended(
    connection: ConnectionView,
    event: DeployOutputEvent,
    pid: Pid,
)
    requires
        connection.writing,
        connection.possible(event),
        connection.live.no_duplicates(),
    ensures
        connection.after(event).live.contains(pid) == (match event {
            DeployOutputEvent::Spawn(_, new_pid) => connection.live.contains(pid) || pid == new_pid,
            DeployOutputEvent::Output(_, _, _) => connection.live.contains(pid),
            DeployOutputEvent::Exit(gone, _) => connection.live.contains(pid) && pid != gone,
        }),
        connection.after(event).reading == connection.reading,
        connection.after(event).writing,
{
    let live = connection.live;
    let after = connection.after(event).live;
    match event {
        DeployOutputEvent::Spawn(_, new_pid) => {
            assert(after[after.len() - 1] == new_pid);
            if live.contains(pid) {
                let i = live.index_of(pid);
                assert(after[i] == pid);
            }
        },
        DeployOutputEvent::Output(_, _, _) => {},
        DeployOutputEvent::Exit(gone, _) => {
            let k = live.index_of(gone);
            assert(live[k] == gone);
            if live.contains(pid) && pid != gone {
                let i = live.index_of(pid);
                assert(live[i] == pid);
                assert(after[if i < k {
                    i
                } else {
                    i - 1
                }] == pid);
            }
            if after.contains(pid) {
                let i = after.index_of(pid);
                assert(after[i] == pid);
                assert(live[if i < k {
                    i
                } else {
                    i + 1
                }] == pid);
            }
        },
    }
}

/// What was asked for a program counts before what the program says, and without
/// either it cannot be placed.
pub proof fn law_what_was_asked_counts(
    asked: Option<Resources>,
    answered: Option<Resources>,
    other: Option<Resources>,
)
    ensures
        asked is Some ==> settled(asked, answered) == Ok::<_, TrySpawnError>(asked->0),
        asked is None && answered is Some ==> settled(asked, answered) == Ok::<_, TrySpawnError>(
            answered->0,
        ),
        asked is None && answered is None ==> settled(asked, answered)
            == Err::<Resources, _>(TrySpawnError::Recce),
        asked is Some ==> settled(asked, answered) == settled(asked, other),
{
}

} // verus!
