//! The channels of one process.

use crate::channel::inner::{
    can_close, can_receive, can_send, connects_by_hash, given_of, inc_of,
    law_one_side_connects_by_hash, link_of, link_view, out_of, wanted, with_inc, with_out, Inner, Link,
    Side, State,
};
use crate::channel::serialize::Incoming;
use crate::net::SocketAddr;
use vstd::prelude::*;

verus! {

/// Why a value could not be passed on.
#[derive(Copy, Clone, PartialEq, Eq, Debug, Structural)]
pub enum ChannelError {
    /// The other process has ended, so that no value can ever pass.
    Exited,
    /// The other process has died, or the channel was lost.
    Error,
}

impl ChannelError {
    /// The reason as a sentence.
    pub open spec fn message(&self) -> Seq<char> {
        match *self {
            ChannelError::Error => "Remote process died or channel killed by OS/hardware"@,
            ChannelError::Exited => "Remote process already exited"@,
        }
    }

    /// The reason in words.
    pub open spec fn spec_description(&self) -> Seq<char> {
        match *self {
            ChannelError::Error => "remote process died or channel killed by OS/hardware"@,
            ChannelError::Exited => "remote process already exited"@,
        }
    }

    /// The reason as a sentence.
    pub fn to_string(&self) -> (r: String)
        ensures
            r@ == self.message(),
    {
        match *self {
            ChannelError::Error => String::from_str(
                "Remote process died or channel killed by OS/hardware",
            ),
            ChannelError::Exited => String::from_str("Remote process already exited"),
        }
    }

    /// The reason in words.
    pub fn description(&self) -> (r: &'static str)
        ensures
            r@ == self.spec_description(),
    {
        match *self {
            ChannelError::Error => "remote process died or channel killed by OS/hardware",
            ChannelError::Exited => "remote process already exited",
        }
    }
}

/// Which end of a channel a process holds.
#[derive(Copy, Clone, PartialEq, Eq, Debug, Structural)]
pub enum Role {
    Sender,
    Receiver,
}

/// A channel, and how many senders and receivers use it.
pub struct Channel {
    pub remote: SocketAddr,
    pub inner: Inner,
    pub senders_count: usize,
    pub receivers_count: usize,
}

/// A channel, as a plain value.
#[verifier::ext_equal]
pub struct Entry {
    pub remote: SocketAddr,
    pub state: State,
    pub senders: int,
    pub receivers: int,
}

impl View for Channel {
    type V = Entry;

    open spec fn view(&self) -> Entry {
        Entry {
            remote: self.remote,
            state: self.inner@,
            senders: self.senders_count as int,
            receivers: self.receivers_count as int,
        }
    }
}

impl Entry {
    /// How many hold the given end.
    pub open spec fn count(self, role: Role) -> int {
        match role {
            Role::Sender => self.senders,
            Role::Receiver => self.receivers,
        }
    }

    /// The same channel with so many that hold the given end.
    pub open spec fn with_count(self, role: Role, n: int) -> Entry {
        match role {
            Role::Sender => Entry { senders: n, ..self },
            Role::Receiver => Entry { receivers: n, ..self },
        }
    }

    /// Whether nobody uses a channel that has ended.
    pub open spec fn finished(self) -> bool {
        self.senders == 0 && self.receivers == 0 && self.state is Closed
    }
}

/// What a channel is to be done to besides being looked after.
#[derive(Copy, Clone, PartialEq, Eq, Debug, Structural)]
pub enum Chore {
    /// This side of it is ended.
    Close,
    /// It is not listened to any more.
    Drain,
    /// Nothing.
    Nothing,
}

/// What a channel is to be done to: one that brings nothing more is closed; when
/// the process ends every channel is closed and not listened to any more.
pub open spec fn chore_for(state: State, done: bool) -> Chore {
    let connecting = state is Connecting || state is ConnectingLocalClosed;
    if can_close(state) && (done || (!connecting && !can_receive(state))) {
        Chore::Close
    } else if done && can_receive(state) {
        Chore::Drain
    } else {
        Chore::Nothing
    }
}

/// The channels of one process.
pub struct Reactor {
    local: SocketAddr,
    sockets: Vec<Channel>,
    done: bool,
}

/// The channels of one process, as a plain value.
#[verifier::ext_equal]
pub struct Channels {
    pub local: SocketAddr,
    pub entries: Seq<Entry>,
    pub done: bool,
}

impl View for Reactor {
    type V = Channels;

    closed spec fn view(&self) -> Channels {
        Channels {
            local: self.local,
            entries: Seq::new(self.sockets@.len(), |i: int| self.sockets@[i]@),
            done: self.done,
        }
    }
}

impl Channels {
    /// There is one channel to each other process, with at most one sender and
    /// one receiver.
    pub open spec fn wf(self) -> bool {
        &&& forall|i: int, j: int|
            #![trigger self.entries[i], self.entries[j]]
            0 <= i < j < self.entries.len() ==> self.entries[i].remote != self.entries[j].remote
        &&& forall|i: int|
            0 <= i < self.entries.len() ==> {
                &&& (#[trigger] self.entries[i]).remote != self.local
                &&& 0 <= self.entries[i].senders <= 1
                &&& 0 <= self.entries[i].receivers <= 1
            }
    }

    /// Whether there is a channel to `remote`.
    pub open spec fn has(self, remote: SocketAddr) -> bool {
        exists|i: int|
            0 <= i < self.entries.len() && (#[trigger] self.entries[i]).remote == remote
    }

    /// Where the channel to `remote` stands.
    pub open spec fn at(self, remote: SocketAddr) -> int {
        choose|i: int|
            0 <= i < self.entries.len() && (#[trigger] self.entries[i]).remote == remote
    }

    /// The channel to `remote`.
    pub open spec fn to(self, remote: SocketAddr) -> Entry {
        self.entries[self.at(remote)]
    }

    /// The same channels with the one to `remote` replaced.
    pub open spec fn with(self, remote: SocketAddr, entry: Entry) -> Channels {
        Channels { entries: self.entries.update(self.at(remote), entry), ..self }
    }

    /// The same channels without the one to `remote`.
    pub open spec fn less(self, remote: SocketAddr) -> Channels {
        Channels { entries: self.entries.remove(self.at(remote)), ..self }
    }

    /// The same channels with one more.
    pub open spec fn plus(self, entry: Entry) -> Channels {
        Channels { entries: self.entries.push(entry), ..self }
    }

    /// Whether the process ends and each channel has ended or is lost.
    pub open spec fn over(self) -> bool {
        &&& self.done
        &&& forall|i: int|
            0 <= i < self.entries.len() ==> (#[trigger] self.entries[i]).state is Closed
                || self.entries[i].state is Killed
    }
}

/// A channel to `remote` whose connection is not made yet.
pub open spec fn fresh(local: SocketAddr, remote: SocketAddr, link: Option<Link>) -> State {
    State::Connecting {
        side: if connects_by_hash(local, remote) {
            Side::Outgoing
        } else {
            Side::Incoming
        },
        conn: link_view(link),
    }
}

/// What came of asking for one end of a channel.
#[derive(Copy, Clone, PartialEq, Eq, Debug, Structural)]
pub enum Opened {
    /// The channel is new.
    New,
    /// The channel was there.
    Shared,
    /// That end is already held.
    Refused,
}

/// What came of a connection that another process has made.
pub enum Accepted {
    /// The channel is new.
    New,
    /// The channel was there and had ended; it starts again.
    Again,
    /// The channel waited for it. The connection before it, if there was one, is
    /// to be given up.
    Added(Option<Link>),
}

impl Reactor {
    /// Every channel is in order.
    pub closed spec fn wf(&self) -> bool {
        &&& self@.wf()
        &&& forall|i: int| 0 <= i < self.sockets@.len() ==> (#[trigger] self.sockets@[i]).inner.wf()
    }

    /// No channels yet, for the process that listens at `local`.
    pub fn new(local: SocketAddr) -> (r: Reactor)
        ensures
            r.wf(),
            r@ == (Channels { local, entries: Seq::empty(), done: false }),
    {
        let r = Reactor { local, sockets: Vec::new(), done: false };
        assert(r@.entries =~= Seq::<Entry>::empty());
        r
    }

    fn find(&self, remote: SocketAddr) -> (r: Option<usize>)
        requires
            self.wf(),
        ensures
            match r {
                Some(i) => self@.has(remote) && i == self@.at(remote) && i < self.sockets@.len(),
                None => !self@.has(remote),
            },
    {
        for i in 0..self.sockets.len()
            invariant
                self.wf(),
                forall|j: int| 0 <= j < i ==> (#[trigger] self@.entries[j]).remote != remote,
        {
            assert(self@.entries[i as int].remote == self.sockets@[i as int].remote);
            if self.sockets[i].remote == remote {
                assert(self@.has(remote));
                let ghost at = self@.at(remote);
                assert(self@.entries[at].remote == remote);
                return Some(i);
            }
        }
        None
    }

    /// Asks for one end of a channel to `remote`. The link is for a channel that
    /// is new and that this process connects.
    pub fn open(&mut self, remote: SocketAddr, role: Role, link: Option<Link>) -> (r: Opened)
        requires
            old(self).wf(),
            remote != old(self)@.local,
            !old(self)@.has(remote) && connects_by_hash(old(self)@.local, remote) ==> link is Some,
        ensures
            final(self).wf(),
            match r {
                Opened::New => !old(self)@.has(remote) && final(self)@ == old(self)@.plus(
                    (Entry {
                        remote,
                        state: fresh(old(self)@.local, remote, link),
                        senders: 0,
                        receivers: 0,
                    }).with_count(role, 1),
                ),
                Opened::Shared => old(self)@.has(remote) && old(self)@.to(remote).count(role) == 0
                    && final(self)@ == old(self)@.with(
                    remote,
                    old(self)@.to(remote).with_count(role, 1),
                ),
                Opened::Refused => old(self)@.has(remote) && old(self)@.to(remote).count(role) > 0
                    && final(self)@ == old(self)@,
            },
    {
        match self.find(remote) {
            None => {
                let inner = Inner::connect(self.local, remote, link);
                let channel = Channel {
                    remote,
                    inner,
                    senders_count: if role == Role::Sender {
                        1
                    } else {
                        0
                    },
                    receivers_count: if role == Role::Receiver {
                        1
                    } else {
                        0
                    },
                };
                let ghost entry = channel@;
                let ghost before = self@;
                self.sockets.push(channel);
                assert(self@.entries =~= before.entries.push(entry));
                Opened::New
            },
            Some(i) => {
                let ghost before = self@;
                assert(self@.entries[i as int] == self.sockets@[i as int]@);
                let count: usize = match role {
                    Role::Sender => self.sockets[i].senders_count,
                    Role::Receiver => self.sockets[i].receivers_count,
                };
                if count > 0 {
                    return Opened::Refused;
                }
                match role {
                    Role::Sender => {
                        self.sockets[i].senders_count = 1;
                    },
                    Role::Receiver => {
                        self.sockets[i].receivers_count = 1;
                    },
                }
                assert(self@.entries =~= before.entries.update(
                    i as int,
                    before.entries[i as int].with_count(role, 1),
                ));
                Opened::Shared
            },
        }
    }

    /// Gives up one end of the channel to `remote`, and says whether the channel
    /// is gone, which it is once nobody uses it and it has ended.
    pub fn release(&mut self, remote: SocketAddr, role: Role) -> (r: bool)
        requires
            old(self).wf(),
            old(self)@.has(remote),
            old(self)@.to(remote).count(role) == 1,
        ensures
            final(self).wf(),
            ({
                let left = old(self)@.to(remote).with_count(role, 0);
                &&& r == left.finished()
                &&& final(self)@ == (if r {
                    old(self)@.less(remote)
                } else {
                    old(self)@.with(remote, left)
                })
            }),
    {
        let i: usize = self.find(remote).unwrap();
        let ghost before = self@;
        assert(self@.entries[i as int] == self.sockets@[i as int]@);
        match role {
            Role::Sender => {
                self.sockets[i].senders_count = 0;
            },
            Role::Receiver => {
                self.sockets[i].receivers_count = 0;
            },
        }
        let ghost left = before.entries[i as int].with_count(role, 0);
        assert(self@.entries =~= before.entries.update(i as int, left));
        let finished = self.sockets[i].senders_count == 0 && self.sockets[i].receivers_count == 0
            && self.sockets[i].inner.closed();
        if finished {
            let ghost mid = self.sockets@;
            let _ = self.sockets.remove(i);
            proof {
                self.lemma_removed(before, mid, i as int);
            }
        }
        finished
    }

    proof fn lemma_removed(&self, before: Channels, mid: Seq<Channel>, i: int)
        requires
            before.wf(),
            0 <= i < mid.len(),
            mid.len() == before.entries.len(),
            self.sockets@ == mid.remove(i),
            self.local == before.local,
            self.done == before.done,
            forall|j: int| 0 <= j < mid.len() && j != i ==> (#[trigger] mid[j])@ == before.entries[j],
            forall|j: int| 0 <= j < mid.len() ==> (#[trigger] mid[j]).inner.wf(),
        ensures
            self.wf(),
            self@ == (Channels { entries: before.entries.remove(i), ..before }),
    {
        let entries = self@.entries;
        assert forall|j: int| 0 <= j < entries.len() implies #[trigger] entries[j]
            == before.entries.remove(i)[j] by {
            let k = if j < i { j } else { j + 1 };
            assert(self.sockets@[j] == mid[k]);
        }
        assert(entries =~= before.entries.remove(i));
        assert forall|a: int, b: int|
            #![trigger entries[a], entries[b]]
            0 <= a < b < entries.len() implies entries[a].remote != entries[b].remote by {
            let a1 = if a < i { a } else { a + 1 };
            let b1 = if b < i { b } else { b + 1 };
            assert(entries[a] == before.entries[a1]);
            assert(entries[b] == before.entries[b1]);
        }
        assert forall|a: int| 0 <= a < entries.len() implies {
            &&& (#[trigger] entries[a]).remote != self@.local
            &&& 0 <= entries[a].senders <= 1
            &&& 0 <= entries[a].receivers <= 1
        } by {
            let a1 = if a < i { a } else { a + 1 };
            assert(entries[a] == before.entries[a1]);
        }
        assert forall|j: int| 0 <= j < self.sockets@.len() implies (#[trigger] self.sockets@[j]).inner.wf() by {
            let k = if j < i { j } else { j + 1 };
            assert(self.sockets@[j] == mid[k]);
        }
    }

    /// Takes the channel to `remote` out if nobody uses it and it has ended, and
    /// says whether that is so.
    pub fn sweep(&mut self, remote: SocketAddr) -> (r: bool)
        requires
            old(self).wf(),
            old(self)@.has(remote),
        ensures
            final(self).wf(),
            r == old(self)@.to(remote).finished(),
            final(self)@ == (if r {
                old(self)@.less(remote)
            } else {
                old(self)@
            }),
    {
        let i: usize = self.find(remote).unwrap();
        let ghost before = self@;
        assert(self@.entries[i as int] == self.sockets@[i as int]@);
        let finished = self.sockets[i].senders_count == 0 && self.sockets[i].receivers_count == 0
            && self.sockets[i].inner.closed();
        if finished {
            let ghost mid = self.sockets@;
            assert forall|j: int| 0 <= j < mid.len() implies (#[trigger] mid[j])@
                == before.entries[j] by {}
            let _ = self.sockets.remove(i);
            proof {
                self.lemma_removed(before, mid, i as int);
            }
        }
        finished
    }

    /// Puts `inner` in the place of what the channel to `remote` has, and gives
    /// that.
    pub fn exchange(&mut self, remote: SocketAddr, inner: Inner) -> (r: Inner)
        requires
            old(self).wf(),
            old(self)@.has(remote),
            inner.wf(),
        ensures
            final(self).wf(),
            r.wf(),
            r@ == old(self)@.to(remote).state,
            final(self)@ == old(self)@.with(
                remote,
                Entry { state: inner@, ..old(self)@.to(remote) },
            ),
    {
        let i: usize = self.find(remote).unwrap();
        let ghost before = self@;
        assert(self@.entries[i as int] == self.sockets@[i as int]@);
        let ghost state = inner@;
        let mut inner = inner;
        core::mem::swap(&mut self.sockets[i].inner, &mut inner);
        assert(self@.entries =~= before.entries.update(
            i as int,
            Entry { state, ..before.entries[i as int] },
        ));
        inner
    }

    /// Whether a connection that `remote` has made can be taken.
    pub open spec fn acceptable(channels: Channels, remote: SocketAddr) -> bool {
        channels.has(remote) ==> match channels.to(remote).state {
            State::Connecting { side, .. } => side == Side::Incoming,
            State::ConnectingLocalClosed { side, .. } => side == Side::Incoming,
            State::Closed => true,
            _ => false,
        }
    }

    /// Whether a connection that `remote` has made can be taken.
    pub fn accepts(&self, remote: SocketAddr) -> (r: bool)
        requires
            self.wf(),
        ensures
            r == Reactor::acceptable(self@, remote),
    {
        match self.find(remote) {
            None => true,
            Some(i) => {
                assert(self@.entries[i as int] == self.sockets@[i as int]@);
                match &self.sockets[i].inner {
                    Inner::Connecting(c) => c.side == Side::Incoming,
                    Inner::ConnectingLocalClosed(c) => c.side == Side::Incoming,
                    Inner::Closed => true,
                    _ => false,
                }
            },
        }
    }

    /// Takes a connection that `remote` has made.
    pub fn accept(&mut self, remote: SocketAddr, link: Link) -> (r: Accepted)
        requires
            old(self).wf(),
            remote != old(self)@.local,
            !connects_by_hash(old(self)@.local, remote),
            Reactor::acceptable(old(self)@, remote),
        ensures
            final(self).wf(),
            ({
                let channels = old(self)@;
                let connected = State::Connecting { side: Side::Incoming, conn: Some(link@) };
                match r {
                    Accepted::New => !channels.has(remote) && final(self)@ == channels.plus(
                        Entry { remote, state: connected, senders: 0, receivers: 0 },
                    ),
                    Accepted::Again => channels.has(remote) && channels.to(remote).state is Closed
                        && final(self)@ == channels.with(
                        remote,
                        Entry { state: connected, ..channels.to(remote) },
                    ),
                    Accepted::Added(before) => channels.has(remote) && match channels.to(
                        remote,
                    ).state {
                        State::Connecting { conn, .. } => link_view(before) == conn && final(self)@
                            == channels.with(
                            remote,
                            Entry { state: connected, ..channels.to(remote) },
                        ),
                        State::ConnectingLocalClosed { conn, .. } => link_view(before) == conn
                            && final(self)@ == channels.with(
                            remote,
                            Entry {
                                state: State::ConnectingLocalClosed {
                                    side: Side::Incoming,
                                    conn: Some(link@),
                                },
                                ..channels.to(remote)
                            },
                        ),
                        _ => false,
                    },
                }
            }),
    {
        let local = self.local;
        match self.find(remote) {
            None => {
                let channel = Channel {
                    remote,
                    inner: Inner::connect(local, remote, Some(link)),
                    senders_count: 0,
                    receivers_count: 0,
                };
                let ghost entry = channel@;
                let ghost before = self@;
                self.sockets.push(channel);
                assert(self@.entries =~= before.entries.push(entry));
                Accepted::New
            },
            Some(i) => {
                assert(self@.entries[i as int] == self.sockets@[i as int]@);
                let inner = self.exchange(remote, Inner::Closed);
                let ghost mid = self@;
                assert(self@.entries[i as int].remote == remote);
                assert(self@.has(remote));
                assert(self@.at(remote) == i) by {
                    assert(self@.entries[self@.at(remote)].remote == remote);
                }
                if inner.closed() {
                    let _ = self.exchange(remote, Inner::connect(local, remote, Some(link)));
                    assert(self@.entries =~= old(self)@.entries.update(
                        i as int,
                        self@.entries[i as int],
                    ));
                    Accepted::Again
                } else {
                    let (inner, before) = inner.add_incoming(link);
                    let _ = self.exchange(remote, inner);
                    assert(self@.entries =~= old(self)@.entries.update(
                        i as int,
                        self@.entries[i as int],
                    ));
                    Accepted::Added(before)
                }
            },
        }
    }

    /// What the channel to `remote` is to be done to besides being looked after.
    pub fn chore(&self, remote: SocketAddr) -> (r: Chore)
        requires
            self.wf(),
            self@.has(remote),
        ensures
            r == chore_for(self@.to(remote).state, self@.done),
    {
        let i: usize = self.find(remote).unwrap();
        assert(self@.entries[i as int] == self.sockets@[i as int]@);
        let inner = &self.sockets[i].inner;
        if inner.closable() && (self.done || (!inner.connecting() && !inner.recvable())) {
            Chore::Close
        } else if self.done && inner.drainable() {
            Chore::Drain
        } else {
            Chore::Nothing
        }
    }

    /// Lets the channels know that the process ends.
    pub fn finish(&mut self)
        requires
            old(self).wf(),
        ensures
            final(self).wf(),
            final(self)@ == (Channels { done: true, ..old(self)@ }),
    {
        let ghost before = self@;
        self.done = true;
        assert(self@.entries =~= before.entries);
    }

    /// Whether the process ends and each channel has ended or is lost.
    pub fn over(&self) -> (r: bool)
        requires
            self.wf(),
        ensures
            r == self@.over(),
    {
        if !self.done {
            return false;
        }
        for i in 0..self.sockets.len()
            invariant
                self.wf(),
                forall|j: int|
                    0 <= j < i ==> (#[trigger] self@.entries[j]).state is Closed
                        || self@.entries[j].state is Killed,
        {
            let inner = &self.sockets[i].inner;
            assert(self@.entries[i as int].state == inner@);
            if inner.valid() && !inner.closed() {
                return false;
            }
        }
        true
    }

    /// The processes that there are channels to.
    pub fn remotes(&self) -> (r: Vec<SocketAddr>)
        ensures
            r@ == self@.entries.map_values(|entry: Entry| entry.remote),
    {
        let mut r: Vec<SocketAddr> = Vec::new();
        for i in 0..self.sockets.len()
            invariant
                r.len() == i,
                forall|j: int| 0 <= j < i ==> r@[j] == (#[trigger] self@.entries[j]).remote,
        {
            r.push(self.sockets[i].remote);
            assert(self@.entries[i as int].remote == r@[i as int]);
        }
        assert(r@ =~= self@.entries.map_values(|entry: Entry| entry.remote));
        r
    }
}

/// Whether sending can go ahead: there is room for a value, or the channel is
/// lost.
pub open spec fn send_unblocked(state: State) -> bool {
    if can_send(state) {
        out_of(state).len() == 0
    } else {
        state is Killed
    }
}

/// Whether receiving can go ahead: a value has come in whole, or the channel is
/// lost.
pub open spec fn recv_unblocked(state: State) -> bool {
    if can_receive(state) {
        inc_of(state) is Complete
    } else {
        state is Killed
    }
}

/// Whether sending can go ahead.
pub fn send_available(inner: &Inner) -> (r: bool)
    requires
        inner.wf(),
    ensures
        r == send_unblocked(inner@),
{
    match inner.send_avail() {
        Some(avail) => avail,
        None => !inner.valid(),
    }
}

/// Whether receiving can go ahead, and whether the channel has to be looked after
/// because a value is waited for from now on.
pub fn recv_available(inner: Inner) -> (r: (Inner, bool, bool))
    requires
        inner.wf(),
    ensures
        r.0.wf(),
        r.1 == recv_unblocked(inner@),
        r.2 == (can_receive(inner@) && !given_of(inner@)),
        r.0@ == (if can_receive(inner@) {
            with_inc(inner@, wanted(inc_of(inner@)), true)
        } else {
            inner@
        }),
{
    let lost = !inner.valid();
    let (inner, avail, queue) = inner.recv_avail();
    match avail {
        Some(avail) => (inner, avail, queue),
        None => (inner, lost, queue),
    }
}

/// Whether sending can go ahead for one who also wants to hear that the channel
/// has ended.
pub fn async_send_available(inner: &Inner) -> (r: bool)
    requires
        inner.wf(),
    ensures
        r == (send_unblocked(inner@) || inner@ is Closed),
{
    send_available(inner) || inner.closed()
}

/// Whether receiving can go ahead for one who also wants to hear that the channel
/// has ended, and whether the channel has to be looked after.
pub fn async_recv_available(inner: Inner) -> (r: (Inner, bool, bool))
    requires
        inner.wf(),
    ensures
        r.0.wf(),
        r.1 == (recv_unblocked(inner@) || inner@ is Closed),
        r.2 == (can_receive(inner@) && !given_of(inner@)),
        r.0@ == (if can_receive(inner@) {
            with_inc(inner@, wanted(inc_of(inner@)), true)
        } else {
            inner@
        }),
{
    let ended = inner.closed();
    let (inner, avail, queue) = recv_available(inner);
    (inner, avail || ended, queue)
}

/// Sends a value. Fails on a channel that is lost, and on one that takes nothing
/// more.
pub fn async_send(inner: Inner, bytes: Vec<u8>) -> (r: (Inner, Result<(), ChannelError>))
    requires
        inner.wf(),
        can_send(inner@) ==> out_of(inner@).len() == 0,
    ensures
        r.0.wf(),
        match r.1 {
            Ok(()) => can_send(inner@) && r.0@ == with_out(inner@, bytes@),
            Err(ChannelError::Error) => inner@ is Killed && r.0@ == inner@,
            Err(ChannelError::Exited) => !(inner@ is Killed) && !can_send(inner@) && r.0@ == inner@,
        },
{
    if !inner.valid() {
        return (inner, Err(ChannelError::Error));
    }
    if !inner.sendable() {
        return (inner, Err(ChannelError::Exited));
    }
    (inner.send(bytes), Ok(()))
}

/// Receives a value. Fails on a channel that is lost, and on one that brings
/// nothing more.
pub fn async_recv(inner: Inner) -> (r: (Inner, Result<Vec<u8>, ChannelError>))
    requires
        inner.wf(),
        can_receive(inner@) ==> inc_of(inner@) is Complete,
    ensures
        r.0.wf(),
        match r.1 {
            Ok(bytes) => can_receive(inner@) && inc_of(inner@) == Incoming::Complete(bytes@)
                && r.0@ == with_inc(inner@, Incoming::Idle, false),
            Err(ChannelError::Error) => inner@ is Killed && r.0@ == inner@,
            Err(ChannelError::Exited) => !(inner@ is Killed) && !can_receive(inner@) && r.0@
                == inner@,
        },
{
    if !inner.valid() {
        return (inner, Err(ChannelError::Error));
    }
    if !inner.recvable() {
        return (inner, Err(ChannelError::Exited));
    }
    let (inner, bytes) = inner.recv();
    (inner, Ok(bytes))
}

/// Where sending or receiving can go ahead, it does: a value passes, unless the
/// channel is lost, which is an error. It never turns out to have exited.
pub proof fn law_what_can_go_ahead_does(state: State)
    ensures
        send_unblocked(state) ==> state is Killed || (can_send(state) && out_of(state).len() == 0),
        recv_unblocked(state) ==> state is Killed || (can_receive(state) && inc_of(
            state,
        ) is Complete),
{
}

/// A channel is ended by itself once the other side has ended and everything that
/// came was taken; when the process ends, every channel is seen to that can still
/// send or receive, and none is before.
pub proof fn law_which_channels_are_seen_to(state: State)
    ensures
        chore_for(state, false) == Chore::Close <==> state is RemoteClosed,
        chore_for(state, false) != Chore::Drain,
        chore_for(state, true) == Chore::Close <==> state is Connecting || state is Connected
            || state is RemoteClosed,
        chore_for(state, true) == Chore::Drain <==> state is LocalClosed,
        chore_for(state, true) == Chore::Nothing ==> !can_send(state) && !can_receive(state),
{
}

/// Who holds an end of a channel is counted for each end by itself.
pub proof fn law_ends_are_counted_apart(entry: Entry, role: Role, other: Role, n: int)
    ensures
        entry.with_count(role, n).count(role) == n,
        role != other ==> entry.with_count(role, n).count(other) == entry.count(other),
        entry.with_count(role, n).state == entry.state,
        entry.with_count(role, n).remote == entry.remote,
        entry.finished() ==> entry.count(role) == 0 && entry.state is Closed,
        entry.count(Role::Sender) == 0 && entry.count(Role::Receiver) == 0 && entry.state is Closed
            ==> entry.finished(),
{
}

proof fn lemma_at(channels: Channels, remote: SocketAddr, i: int)
    requires
        channels.wf(),
        0 <= i < channels.entries.len(),
        channels.entries[i].remote == remote,
    ensures
        channels.has(remote),
        channels.at(remote) == i,
        channels.to(remote) == channels.entries[i],
{
    let k = channels.at(remote);
    assert(channels.entries[k].remote == remote);
    if k < i {
        assert(channels.entries[k].remote != channels.entries[i].remote);
    }
    if i < k {
        assert(channels.entries[i].remote != channels.entries[k].remote);
    }
}

/// What is done to the channel to one process leaves the channels to all others as
/// they are.
pub proof fn law_channels_do_not_touch_each_other(
    channels: Channels,
    remote: SocketAddr,
    other: SocketAddr,
    entry: Entry,
)
    requires
        channels.wf(),
        channels.has(remote),
        entry.remote == remote,
        0 <= entry.senders <= 1,
        0 <= entry.receivers <= 1,
        other != remote,
    ensures
        ({
            let with = channels.with(remote, entry);
            let less = channels.less(remote);
            &&& with.to(remote) == entry
            &&& with.has(other) == channels.has(other)
            &&& channels.has(other) ==> with.to(other) == channels.to(other)
            &&& with.entries.len() == channels.entries.len()
            &&& !less.has(remote)
            &&& less.has(other) == channels.has(other)
            &&& channels.has(other) ==> less.to(other) == channels.to(other)
        }),
{
    let k = channels.at(remote);
    assert(channels.entries[k].remote == remote);
    let with = channels.with(remote, entry);
    let less = channels.less(remote);
    assert(with.wf()) by {
        assert forall|i: int, j: int|
            #![trigger with.entries[i], with.entries[j]]
            0 <= i < j < with.entries.len() implies with.entries[i].remote
            != with.entries[j].remote by {
            assert(channels.entries[i].remote != channels.entries[j].remote);
        }
        assert forall|i: int| 0 <= i < with.entries.len() implies {
            &&& (#[trigger] with.entries[i]).remote != with.local
            &&& 0 <= with.entries[i].senders <= 1
            &&& 0 <= with.entries[i].receivers <= 1
        } by {
            assert(channels.entries[i].remote != channels.local);
        }
    }
    assert(less.wf()) by {
        assert forall|i: int, j: int|
            #![trigger less.entries[i], less.entries[j]]
            0 <= i < j < less.entries.len() implies less.entries[i].remote
            != less.entries[j].remote by {
            let a = if i < k { i } else { i + 1 };
            let b = if j < k { j } else { j + 1 };
            assert(less.entries[i] == channels.entries[a]);
            assert(less.entries[j] == channels.entries[b]);
        }
        assert forall|i: int| 0 <= i < less.entries.len() implies {
            &&& (#[trigger] less.entries[i]).remote != less.local
            &&& 0 <= less.entries[i].senders <= 1
            &&& 0 <= less.entries[i].receivers <= 1
        } by {
            let a = if i < k { i } else { i + 1 };
            assert(less.entries[i] == channels.entries[a]);
        }
    }
    assert(with.entries[k] == entry);
    lemma_at(with, remote, k);
    if channels.has(other) {
        let m = channels.at(other);
        assert(channels.entries[m].remote == other);
        assert(with.entries[m] == channels.entries[m]);
        lemma_at(with, other, m);
        let n = if m < k { m } else { m - 1 };
        assert(less.entries[n] == channels.entries[m]);
        lemma_at(less, other, n);
    }
    if with.has(other) {
        let m = with.at(other);
        assert(with.entries[m].remote == other);
        assert(channels.entries[m].remote == other);
    }
    if less.has(other) {
        let m = less.at(other);
        assert(less.entries[m].remote == other);
        let a = if m < k { m } else { m + 1 };
        assert(channels.entries[a].remote == other);
    }
    if less.has(remote) {
        let m = less.at(remote);
        assert(less.entries[m].remote == remote);
        let a = if m < k { m } else { m + 1 };
        assert(channels.entries[a].remote == remote);
        if a < k {
            assert(channels.entries[a].remote != channels.entries[k].remote);
        } else {
            assert(channels.entries[k].remote != channels.entries[a].remote);
        }
    }
}

/// Of two processes that have a channel to each other and wait for a connection,
/// exactly one takes the connection that the other makes. A connection from a process
/// to which there is no channel is always taken, and none is while one is used.
pub proof fn law_connections_are_taken_by_one_side(
    channels: Channels,
    remote: SocketAddr,
    link: Option<Link>,
    others: Channels,
    other_link: Option<Link>,
)
    requires
        channels.has(remote) ==> channels.to(remote).remote == remote,
        channels.local != remote,
        others.local == remote,
        others.has(channels.local),
    ensures
        !channels.has(remote) ==> Reactor::acceptable(channels, remote),
        channels.has(remote) && (can_send(channels.to(remote).state) || can_receive(
            channels.to(remote).state,
        )) && !(channels.to(remote).state is Connecting) && !(channels.to(
            remote,
        ).state is ConnectingLocalClosed) ==> !Reactor::acceptable(channels, remote),
        channels.has(remote) && channels.to(remote).state == fresh(channels.local, remote, link)
            && others.to(channels.local).state == fresh(remote, channels.local, other_link)
            ==> Reactor::acceptable(channels, remote) != Reactor::acceptable(
            others,
            channels.local,
        ),
{
    law_one_side_connects_by_hash(channels.local, remote);
}

/// One more channel is there afterwards, and all others are as they were.
pub proof fn law_one_more_channel(channels: Channels, entry: Entry, other: SocketAddr)
    requires
        channels.wf(),
        !channels.has(entry.remote),
        entry.remote != channels.local,
        0 <= entry.senders <= 1,
        0 <= entry.receivers <= 1,
        channels.has(other),
    ensures
        channels.plus(entry).has(entry.remote),
        channels.plus(entry).to(entry.remote) == entry,
        channels.plus(entry).to(other) == channels.to(other),
        channels.plus(entry).entries.len() == channels.entries.len() + 1,
{
    let more = channels.plus(entry);
    let n = channels.entries.len() as int;
    assert(more.wf()) by {
        assert forall|i: int, j: int|
            #![trigger more.entries[i], more.entries[j]]
            0 <= i < j < more.entries.len() implies more.entries[i].remote
            != more.entries[j].remote by {
            assert(channels.entries[i].remote != entry.remote);
            if j < n {
                assert(channels.entries[i].remote != channels.entries[j].remote);
            }
        }
        assert forall|i: int| 0 <= i < more.entries.len() implies {
            &&& (#[trigger] more.entries[i]).remote != more.local
            &&& 0 <= more.entries[i].senders <= 1
            &&& 0 <= more.entries[i].receivers <= 1
        } by {
            if i < n {
                assert(channels.entries[i].remote != channels.local);
            }
        }
    }
    assert(more.entries[n] == entry);
    lemma_at(more, entry.remote, n);
    let m = channels.at(other);
    assert(channels.entries[m].remote == other);
    assert(more.entries[m] == channels.entries[m]);
    lemma_at(more, other, m);
}

/// The process waits for its channels: as long as one of them may still pass a value,
/// or bytes that were put into it, it is not over; nor is it before it is to end.
pub proof fn law_channels_are_waited_for(channels: Channels, i: int)
    requires
        0 <= i < channels.entries.len(),
    ensures
        channels.over() ==> channels.done && !can_send(channels.entries[i].state) && !can_receive(
            channels.entries[i].state,
        ) && link_of(channels.entries[i].state) is None,
        channels.done && channels.entries.len() == 1 && channels.entries[i].state is Closed
            ==> channels.over(),
        channels.done && channels.entries.len() == 1 && channels.entries[i].state is Killed
            ==> channels.over(),
{
    if channels.over() {
        assert(channels.entries[i].state is Closed || channels.entries[i].state is Killed);
    }
}

/// That the other process has ended and that it has died are told apart in words.
pub proof fn law_failures_are_told_apart(a: ChannelError, b: ChannelError)
    ensures
        a.message() == b.message() ==> a == b,
        a.spec_description() == b.spec_description() ==> a == b,
        a.message().len() == a.spec_description().len(),
        a.message().skip(1) == a.spec_description().skip(1),
{
    reveal_strlit("Remote process died or channel killed by OS/hardware");
    reveal_strlit("Remote process already exited");
    reveal_strlit("remote process died or channel killed by OS/hardware");
    reveal_strlit("remote process already exited");
    assert("Remote process died or channel killed by OS/hardware"@.len() == 52);
    assert("Remote process already exited"@.len() == 29);
    assert("remote process died or channel killed by OS/hardware"@.len() == 52);
    assert("remote process already exited"@.len() == 29);
    assert(a.message().skip(1) =~= a.spec_description().skip(1));
}

} // verus!
