//! A channel to another process on top of a connection.
//!
//! Values go out and come in as bytes. The channel moves bytes to and from what
//! the connection holds, and asks for the connection to be polled until nothing
//! moves any more.

use crate::channel::serialize::{Deserializer, Incoming, Serializer};
use crate::net::{addr_before, IpAddr, SocketAddr};
use std::collections::hash_map::DefaultHasher;
use std::hash::Hasher;
use vstd::prelude::*;
use vstd::std_specs::hash::DefaultHasherAdditionalSpecFns;

verus! {

/// What a connection says of itself, and the bytes that it holds.
pub struct Link {
    /// Whether its handshake is still going on.
    pub connecting: bool,
    /// Whether bytes may be put into it.
    pub sendable: bool,
    /// Whether bytes may come out of it.
    pub recvable: bool,
    /// Whether this side of it can be ended.
    pub closable: bool,
    /// Whether it has ended on both sides.
    pub closed: bool,
    /// Whether it is not lost.
    pub valid: bool,
    /// How many more bytes can be put into it.
    pub room: usize,
    /// The bytes that have come, the oldest first.
    pub inbox: Vec<u8>,
    /// The bytes that have been put into it, the oldest first.
    pub outbox: Vec<u8>,
}

/// A connection, as a plain value.
#[verifier::ext_equal]
pub struct LinkView {
    pub connecting: bool,
    pub sendable: bool,
    pub recvable: bool,
    pub closable: bool,
    pub closed: bool,
    pub valid: bool,
    pub room: int,
    pub inbox: Seq<u8>,
    pub outbox: Seq<u8>,
}

impl View for Link {
    type V = LinkView;

    open spec fn view(&self) -> LinkView {
        LinkView {
            connecting: self.connecting,
            sendable: self.sendable,
            recvable: self.recvable,
            closable: self.closable,
            closed: self.closed,
            valid: self.valid,
            room: self.room as int,
            inbox: self.inbox@,
            outbox: self.outbox@,
        }
    }
}

/// Which of two processes connects to the other: the one with the greater
/// address.
pub open spec fn connects(local: SocketAddr, remote: SocketAddr) -> bool {
    addr_before(remote, local)
}

/// Whether the process at `a` connects to the one at `b`, rather than `b` to
/// `a`.
pub fn ord(a: &SocketAddr, b: &SocketAddr) -> (r: bool)
    requires
        a != b,
    ensures
        r == connects(*a, *b),
{
    b.before(a)
}

/// Of two processes exactly one connects to the other.
pub proof fn law_one_side_connects(a: SocketAddr, b: SocketAddr)
    requires
        a != b,
    ensures
        connects(a, b) != connects(b, a),
{
}

/// How often the hashes of two addresses are taken before the addresses
/// themselves decide: as often as can be counted.
pub const HASH_ROUNDS: u128 = 0xffff_ffff_ffff_ffff_ffff_ffff_ffff_ffff;

/// An address as bytes.
pub open spec fn addr_bytes(addr: SocketAddr) -> Seq<u8> {
    let (version, number) = match addr.ip {
        IpAddr::V4(n) => (4u8, n as u128),
        IpAddr::V6(n) => (6u8, n),
    };
    crate::pid::key_bytes(number).push(version).push((addr.port % 256) as u8).push(
        (addr.port / 256) as u8,
    )
}

/// The hash of an address that has been fed to the hasher `rounds` times.
pub open spec fn addr_hash(addr: SocketAddr, rounds: int) -> u64 {
    DefaultHasher::spec_finish(Seq::new(rounds as nat, |i: int| addr_bytes(addr)))
}

/// Whether the hashes of two addresses differ in round `n` for the first time.
pub open spec fn first_difference(a: SocketAddr, b: SocketAddr, n: int) -> bool {
    &&& 1 <= n <= HASH_ROUNDS
    &&& addr_hash(a, n) != addr_hash(b, n)
    &&& forall|m: int| 1 <= m < n ==> #[trigger] addr_hash(a, m) == addr_hash(b, m)
}

/// Which of two processes connects to the other, by hash: the one whose address
/// has the lesser hash in the first round in which the hashes differ. If they
/// never do, the one with the greater address.
pub open spec fn connects_by_hash(local: SocketAddr, remote: SocketAddr) -> bool {
    if exists|n: int| first_difference(local, remote, n) {
        let n = choose|n: int| first_difference(local, remote, n);
        addr_hash(local, n) < addr_hash(remote, n)
    } else {
        connects(local, remote)
    }
}

fn bytes_of_addr(addr: &SocketAddr) -> (r: Vec<u8>)
    ensures
        r@ == addr_bytes(*addr),
{
    let (version, number) = match addr.ip {
        IpAddr::V4(n) => (4u8, n as u128),
        IpAddr::V6(n) => (6u8, n),
    };
    let mut r = crate::pid::to_le_bytes(number);
    r.push(version);
    r.push((addr.port % 256) as u8);
    r.push((addr.port / 256) as u8);
    r
}

/// Whether the process at `a` connects to the one at `b`, by hash, rather than
/// `b` to `a`.
pub fn ord_by_hash(a: &SocketAddr, b: &SocketAddr) -> (r: bool)
    requires
        a != b,
    ensures
        r == connects_by_hash(*a, *b),
{
    let a_bytes = bytes_of_addr(a);
    let b_bytes = bytes_of_addr(b);
    let mut a_hasher = DefaultHasher::new();
    let mut b_hasher = DefaultHasher::new();
    assert(a_hasher@ =~= Seq::new(0, |i: int| addr_bytes(*a)));
    assert(b_hasher@ =~= Seq::new(0, |i: int| addr_bytes(*b)));
    let mut n: u128 = 0;
    while n < HASH_ROUNDS
        invariant
            n <= HASH_ROUNDS,
            a_bytes@ == addr_bytes(*a),
            b_bytes@ == addr_bytes(*b),
            a_hasher@ == Seq::new(n as nat, |i: int| addr_bytes(*a)),
            b_hasher@ == Seq::new(n as nat, |i: int| addr_bytes(*b)),
            forall|m: int| 1 <= m <= n ==> #[trigger] addr_hash(*a, m) == addr_hash(*b, m),
        decreases HASH_ROUNDS - n,
    {
        a_hasher.write(a_bytes.as_slice());
        let a_hash: u64 = a_hasher.finish();
        b_hasher.write(b_bytes.as_slice());
        let b_hash: u64 = b_hasher.finish();
        n = n + 1;
        assert(a_hasher@ =~= Seq::new(n as nat, |i: int| addr_bytes(*a)));
        assert(b_hasher@ =~= Seq::new(n as nat, |i: int| addr_bytes(*b)));
        assert(a_hash == addr_hash(*a, n as int));
        assert(b_hash == addr_hash(*b, n as int));
        if a_hash != b_hash {
            proof {
                assert(first_difference(*a, *b, n as int));
                let m = choose|m: int| first_difference(*a, *b, m);
                lemma_first_difference_unique(*a, *b, n as int, m);
            }
            return b_hash > a_hash;
        }
    }
    assert forall|m: int| !first_difference(*a, *b, m) by {
        if 1 <= m <= HASH_ROUNDS {
            assert(addr_hash(*a, m) == addr_hash(*b, m));
        }
    }
    ord(a, b)
}

proof fn lemma_first_difference_unique(a: SocketAddr, b: SocketAddr, n: int, m: int)
    requires
        first_difference(a, b, n),
        first_difference(a, b, m),
    ensures
        n == m,
{
    if n < m {
        assert(addr_hash(a, n) == addr_hash(b, n));
    }
    if m < n {
        assert(addr_hash(a, m) == addr_hash(b, m));
    }
}

/// Of two processes exactly one connects to the other, by hash too.
pub proof fn law_one_side_connects_by_hash(a: SocketAddr, b: SocketAddr)
    requires
        a != b,
    ensures
        connects_by_hash(a, b) != connects_by_hash(b, a),
{
    law_one_side_connects(a, b);
    if exists|n: int| first_difference(a, b, n) {
        let n = choose|n: int| first_difference(a, b, n);
        assert(first_difference(b, a, n)) by {
            assert forall|m: int| 1 <= m < n implies #[trigger] addr_hash(b, m) == addr_hash(a, m) by {
                assert(addr_hash(a, m) == addr_hash(b, m));
            }
        }
        let m = choose|m: int| first_difference(b, a, m);
        lemma_first_difference_unique(b, a, n, m);
    } else {
        assert forall|n: int| !first_difference(b, a, n) by {
            if first_difference(b, a, n) {
                assert forall|m: int| 1 <= m < n implies #[trigger] addr_hash(a, m) == addr_hash(
                    b,
                    m,
                ) by {
                    assert(addr_hash(b, m) == addr_hash(a, m));
                }
                assert(first_difference(a, b, n));
            }
        }
    }
}

/// How many bytes can go out.
pub open spec fn outgoing(link: LinkView, out: Seq<u8>) -> int {
    if !link.sendable {
        0
    } else if link.room < out.len() {
        link.room
    } else {
        out.len() as int
    }
}

/// How many bytes can come in. `frame` says after how many more bytes the value
/// that is waited for is complete.
pub open spec fn incoming(link: LinkView, inc: Incoming, frame: Option<usize>) -> int {
    if !link.recvable || !(inc is Partial) {
        0
    } else {
        match frame {
            Some(n) if n <= link.inbox.len() => n as int,
            _ => link.inbox.len() as int,
        }
    }
}

/// The connection once bytes have gone out.
pub open spec fn link_sent(link: LinkView, out: Seq<u8>) -> LinkView {
    let k = outgoing(link, out);
    LinkView { room: link.room - k, outbox: link.outbox + out.take(k), ..link }
}

/// The connection once bytes have come in.
pub open spec fn link_received(link: LinkView, inc: Incoming, frame: Option<usize>) -> LinkView {
    LinkView { inbox: link.inbox.skip(incoming(link, inc, frame)), ..link }
}

/// How far the value has come in that is waited for, once bytes have come in.
pub open spec fn value_received(link: LinkView, inc: Incoming, frame: Option<usize>) -> Incoming {
    match inc {
        Incoming::Partial(bytes) if link.recvable => {
            let all = bytes + link.inbox.take(incoming(link, inc, frame));
            match frame {
                Some(n) if n <= link.inbox.len() => Incoming::Complete(all),
                _ => Incoming::Partial(all),
            }
        },
        _ => inc,
    }
}

/// Whether nothing of a value has come in.
pub open spec fn is_empty(inc: Incoming) -> bool {
    match inc {
        Incoming::Idle => true,
        Incoming::Partial(bytes) => bytes.len() == 0,
        Incoming::Complete(_) => false,
    }
}

/// Lets bytes go out, and says whether any did.
fn send_some(link: &mut Link, serializer: &mut Serializer) -> (r: bool)
    requires
        old(serializer).wf(),
    ensures
        final(serializer).wf(),
        final(link)@ == link_sent(old(link)@, old(serializer).remaining()),
        final(serializer).remaining() == old(serializer).remaining().skip(
            outgoing(old(link)@, old(serializer).remaining()),
        ),
        r == (outgoing(old(link)@, old(serializer).remaining()) > 0),
{
    let ghost out = serializer.remaining();
    let ghost before = link@;
    let mut progress = false;
    let ghost mut k: int = 0;
    if link.sendable {
        while link.room > 0 && serializer.pull_avail()
            invariant
                serializer.wf(),
                before.sendable,
                0 <= k <= out.len(),
                k <= before.room,
                link@ =~= (LinkView {
                    room: before.room - k,
                    outbox: before.outbox + out.take(k),
                    ..before
                }),
                serializer.remaining() =~= out.skip(k),
                progress == (k > 0),
            decreases out.len() - k,
        {
            link.outbox.push(serializer.pull());
            link.room = link.room - 1;
            progress = true;
            proof {
                assert(out.take(k).push(out[k]) =~= out.take(k + 1));
                assert(before.outbox + out.take(k + 1) =~= (before.outbox + out.take(k)).push(
                    out[k],
                ));
                k = k + 1;
            }
        }
    }
    proof {
        assert(out.take(0) =~= Seq::<u8>::empty());
        assert(k == outgoing(before, out));
        assert(link@ =~= link_sent(before, out));
    }
    progress
}

/// Lets bytes come in, and says whether any did.
fn receive_some(link: &mut Link, deserializer: &mut Deserializer, frame: Option<usize>) -> (r: bool)
    requires
        old(deserializer).wf(),
        frame matches Some(n) ==> n > 0,
    ensures
        final(deserializer).wf(),
        final(link)@ == link_received(old(link)@, old(deserializer).state(), frame),
        final(deserializer).state() == value_received(
            old(link)@,
            old(deserializer).state(),
            frame,
        ),
        r == (incoming(old(link)@, old(deserializer).state(), frame) > 0),
{
    let ghost before = link@;
    let ghost state = deserializer.state();
    if !link.recvable || !deserializer.push_avail() {
        assert(link@ =~= link_received(before, state, frame));
        return false;
    }
    let (n, complete) = match frame {
        Some(n) => if n <= link.inbox.len() {
            (n, true)
        } else {
            (link.inbox.len(), false)
        },
        None => (link.inbox.len(), false),
    };
    let ghost start = state->Partial_0;
    let rest = link.inbox.split_off(n);
    let mut i: usize = 0;
    while i < n
        invariant
            deserializer.wf(),
            i <= n,
            n == link.inbox@.len(),
            link.inbox@ == before.inbox.take(n as int),
            link@ == (LinkView { inbox: before.inbox.take(n as int), ..before }),
            complete && i == n ==> n > 0,
            deserializer.state() == (if complete && i == n {
                Incoming::Complete(start + before.inbox.take(i as int))
            } else {
                Incoming::Partial(start + before.inbox.take(i as int))
            }),
            n <= before.inbox.len(),
        decreases n - i,
    {
        let x: u8 = link.inbox[i];
        deserializer.push(x, complete && i + 1 == n);
        assert((start + before.inbox.take(i as int)).push(x) =~= start + before.inbox.take(i + 1));
        i = i + 1;
    }
    link.inbox = rest;
    proof {
        assert(start + before.inbox.take(0) =~= start);
        assert(link@ =~= link_received(before, state, frame));
    }
    n > 0
}

/// Which side of a channel a connection is made by.
#[derive(Copy, Clone, PartialEq, Eq, Debug, Structural)]
pub enum Side {
    /// By this process.
    Outgoing,
    /// By the other process.
    Incoming,
}

/// A channel whose connection is not made yet.
pub struct InnerConnecting {
    pub side: Side,
    pub link: Option<Link>,
}

/// A channel whose connection is not made yet, when this side has ended.
pub struct InnerConnectingLocalClosed {
    pub side: Side,
    pub link: Option<Link>,
}

/// A channel in both directions.
pub struct InnerConnected {
    pub link: Link,
    pub send_serializer: Serializer,
    pub recv_deserializer: Deserializer,
    pub recv_deserializer_given: bool,
}

/// A channel of which the other side has ended, or is not listened to any more.
pub struct InnerRemoteClosed {
    pub link: Link,
    pub send_serializer: Serializer,
    pub drain: bool,
}

/// A channel of which this side has ended.
pub struct InnerLocalClosed {
    pub link: Link,
    pub send_serializer: Serializer,
    pub recv_deserializer: Deserializer,
    pub recv_deserializer_given: bool,
}

/// A channel of which both sides have ended, until everything has left.
pub struct InnerClosing {
    pub link: Link,
    pub send_serializer: Serializer,
    pub drain: bool,
}

/// A channel to another process.
pub enum Inner {
    Connecting(InnerConnecting),
    ConnectingLocalClosed(InnerConnectingLocalClosed),
    Connected(InnerConnected),
    RemoteClosed(InnerRemoteClosed),
    LocalClosed(InnerLocalClosed),
    Closing(InnerClosing),
    Closed,
    Killed,
}

/// A channel, as a plain value.
#[verifier::ext_equal]
pub enum State {
    Connecting { side: Side, conn: Option<LinkView> },
    ConnectingLocalClosed { side: Side, conn: Option<LinkView> },
    Connected { link: LinkView, out: Seq<u8>, inc: Incoming, given: bool },
    RemoteClosed { link: LinkView, out: Seq<u8>, drain: bool },
    LocalClosed { link: LinkView, out: Seq<u8>, inc: Incoming, given: bool },
    Closing { link: LinkView, out: Seq<u8>, drain: bool },
    Closed,
    Killed,
}

/// What a channel asks of its connection.
#[derive(Copy, Clone, PartialEq, Eq, Debug, Structural)]
pub enum Ask {
    /// Poll it.
    Poll,
    /// Poll it, now that everything that had come was thrown away.
    PollDrained,
    /// End this side of it.
    Close,
}

/// What has just been done to the connection of a channel.
#[derive(Copy, Clone, PartialEq, Eq, Debug, Structural)]
pub enum Seen {
    /// Nothing: the channel starts to be looked after.
    Start,
    /// It was asked for, and done.
    Did(Ask),
}

/// A channel after something was done: what has become of it, and what it asks
/// next; nothing if it is to be left alone for now.
#[verifier::ext_equal]
pub struct Step {
    pub state: State,
    pub next: Option<Ask>,
}

pub open spec fn link_view(link: Option<Link>) -> Option<LinkView> {
    match link {
        Some(link) => Some(link@),
        None => None,
    }
}

impl View for Inner {
    type V = State;

    open spec fn view(&self) -> State {
        match *self {
            Inner::Connecting(c) => State::Connecting { side: c.side, conn: link_view(c.link) },
            Inner::ConnectingLocalClosed(c) => State::ConnectingLocalClosed {
                side: c.side,
                conn: link_view(c.link),
            },
            Inner::Connected(c) => State::Connected {
                link: c.link@,
                out: c.send_serializer.remaining(),
                inc: c.recv_deserializer.state(),
                given: c.recv_deserializer_given,
            },
            Inner::RemoteClosed(c) => State::RemoteClosed {
                link: c.link@,
                out: c.send_serializer.remaining(),
                drain: c.drain,
            },
            Inner::LocalClosed(c) => State::LocalClosed {
                link: c.link@,
                out: c.send_serializer.remaining(),
                inc: c.recv_deserializer.state(),
                given: c.recv_deserializer_given,
            },
            Inner::Closing(c) => State::Closing {
                link: c.link@,
                out: c.send_serializer.remaining(),
                drain: c.drain,
            },
            Inner::Closed => State::Closed,
            Inner::Killed => State::Killed,
        }
    }
}

pub open spec fn asks(state: State, ask: Ask) -> Step {
    Step { state, next: Some(ask) }
}

pub open spec fn waits(state: State) -> Step {
    Step { state, next: None }
}

/// A channel whose connection is made, as it starts to be looked after.
pub open spec fn begun_connected(link: LinkView, out: Seq<u8>, inc: Incoming, given: bool, frame:
    Option<usize>) -> Step {
    asks(
        State::Connected {
            link: link_received(link_sent(link, out), inc, frame),
            out: out.skip(outgoing(link, out)),
            inc: value_received(link_sent(link, out), inc, frame),
            given,
        },
        Ask::Poll,
    )
}

/// A channel of which this side has ended, as it starts to be looked after.
pub open spec fn begun_local_closed(
    link: LinkView,
    out: Seq<u8>,
    inc: Incoming,
    given: bool,
    frame: Option<usize>,
) -> Step {
    asks(
        State::LocalClosed {
            link: link_received(link_sent(link, out), inc, frame),
            out: out.skip(outgoing(link, out)),
            inc: value_received(link_sent(link, out), inc, frame),
            given,
        },
        Ask::Poll,
    )
}

/// The connection once everything that had come was thrown away.
pub open spec fn emptied(link: LinkView) -> LinkView {
    LinkView { inbox: Seq::empty(), ..link }
}

/// A channel that is not listened to any more, as it starts to be looked after,
/// or once what had come was thrown away.
pub open spec fn begun_remote_closed(link: LinkView, out: Seq<u8>, drain: bool, drained: bool) -> Step {
    let drain = drain && link.recvable;
    if drain && !drained && link.inbox.len() > 0 {
        asks(State::RemoteClosed { link: emptied(link), out, drain }, Ask::PollDrained)
    } else {
        asks(
            State::RemoteClosed {
                link: link_sent(link, out),
                out: out.skip(outgoing(link, out)),
                drain,
            },
            Ask::Poll,
        )
    }
}

/// A channel of which both sides have ended, as it starts to be looked after, or
/// once what had come was thrown away.
pub open spec fn begun_closing(link: LinkView, out: Seq<u8>, drain: bool, drained: bool) -> Step {
    let drain = drain && link.recvable;
    if drain && !drained && link.inbox.len() > 0 {
        asks(State::Closing { link: emptied(link), out, drain }, Ask::PollDrained)
    } else {
        asks(
            State::Closing {
                link: link_sent(link, out),
                out: out.skip(outgoing(link, out)),
                drain,
            },
            Ask::Poll,
        )
    }
}

/// Once no more bytes move: a channel whose connection brings nothing more and
/// of which everything has been taken only sends from then on.
pub open spec fn settled_connected(link: LinkView, out: Seq<u8>, inc: Incoming, given: bool) -> Step {
    if !link.recvable && is_empty(inc) {
        begun_remote_closed(link, out, false, false)
    } else if !link.valid {
        waits(State::Killed)
    } else {
        waits(State::Connected { link, out, inc, given })
    }
}

/// The same of a channel of which this side has ended.
pub open spec fn settled_local_closed(link: LinkView, out: Seq<u8>, inc: Incoming, given: bool) -> Step {
    if !link.recvable && is_empty(inc) {
        begun_closing(link, out, false, false)
    } else if !link.valid {
        waits(State::Killed)
    } else {
        waits(State::LocalClosed { link, out, inc, given })
    }
}

/// The same of a channel of which both sides have ended.
pub open spec fn settled_closing(link: LinkView, out: Seq<u8>, drain: bool) -> Step {
    if !link.valid {
        waits(State::Killed)
    } else if link.closed {
        waits(State::Closed)
    } else {
        waits(State::Closing { link, out, drain })
    }
}

/// A channel after something was done to its connection.
pub open spec fn step(state: State, seen: Seen, frame: Option<usize>) -> Step {
    match state {
        State::Connecting { side, conn } => match conn {
            None => waits(state),
            Some(link) => if seen == Seen::Start {
                asks(state, Ask::Poll)
            } else if link.connecting {
                waits(state)
            } else {
                begun_connected(link, Seq::empty(), Incoming::Idle, false, frame)
            },
        },
        State::ConnectingLocalClosed { side, conn } => match conn {
            None => waits(State::Closed),
            Some(link) => if seen == Seen::Start {
                asks(state, Ask::Poll)
            } else if seen == Seen::Did(Ask::Poll) && link.closable {
                asks(state, Ask::Close)
            } else if link.connecting {
                waits(state)
            } else {
                begun_local_closed(link, Seq::empty(), Incoming::Idle, false, frame)
            },
        },
        State::Connected { link, out, inc, given } => if seen == Seen::Start || outgoing(link, out)
            > 0 || incoming(link_sent(link, out), inc, frame) > 0 {
            begun_connected(link, out, inc, given, frame)
        } else {
            settled_connected(link, out, inc, given)
        },
        State::RemoteClosed { link, out, drain } => if seen == Seen::Start {
            begun_remote_closed(link, out, drain, false)
        } else if seen == Seen::Did(Ask::PollDrained) {
            begun_remote_closed(link, out, drain, true)
        } else if outgoing(link, out) > 0 {
            asks(
                State::RemoteClosed {
                    link: link_sent(link, out),
                    out: out.skip(outgoing(link, out)),
                    drain,
                },
                Ask::Poll,
            )
        } else if !link.valid {
            waits(State::Killed)
        } else {
            waits(state)
        },
        State::LocalClosed { link, out, inc, given } => if seen == Seen::Did(Ask::Close) {
            settled_local_closed(link, out, inc, given)
        } else if seen == Seen::Start || outgoing(link, out) > 0 || incoming(
            link_sent(link, out),
            inc,
            frame,
        ) > 0 {
            begun_local_closed(link, out, inc, given, frame)
        } else if link.sendable && out.len() == 0 {
            asks(state, Ask::Close)
        } else {
            settled_local_closed(link, out, inc, given)
        },
        State::Closing { link, out, drain } => if seen == Seen::Start {
            begun_closing(link, out, drain, false)
        } else if seen == Seen::Did(Ask::PollDrained) {
            begun_closing(link, out, drain, true)
        } else if seen == Seen::Did(Ask::Close) {
            settled_closing(link, out, drain)
        } else if outgoing(link, out) > 0 {
            asks(
                State::Closing {
                    link: link_sent(link, out),
                    out: out.skip(outgoing(link, out)),
                    drain,
                },
                Ask::Poll,
            )
        } else if link.sendable && out.len() == 0 {
            asks(state, Ask::Close)
        } else {
            settled_closing(link, out, drain)
        },
        State::Closed => waits(state),
        State::Killed => waits(state),
    }
}

/// A connection from which nothing is read any more brings nothing more, unless
/// what comes is thrown away.
pub open spec fn in_order(state: State) -> bool {
    match state {
        State::RemoteClosed { link, drain, .. } => drain || !link.recvable,
        State::Closing { link, drain, .. } => drain || !link.recvable,
        _ => true,
    }
}

proof fn lemma_nothing_moved(link: LinkView, out: Seq<u8>, inc: Incoming, frame: Option<usize>)
    requires
        frame matches Some(n) ==> n > 0,
    ensures
        outgoing(link, out) == 0 ==> link_sent(link, out) == link && out.skip(
            outgoing(link, out),
        ) == out,
        incoming(link, inc, frame) == 0 ==> link_received(link, inc, frame) == link
            && value_received(link, inc, frame) == inc,
{
    if outgoing(link, out) == 0 {
        assert(link.outbox + out.take(0) =~= link.outbox);
        assert(out.skip(0) =~= out);
    }
    if incoming(link, inc, frame) == 0 {
        assert(link.inbox.skip(0) =~= link.inbox);
        if let Incoming::Partial(bytes) = inc {
            assert(bytes + link.inbox.take(0) =~= bytes);
        }
    }
}

impl Inner {
    /// What goes out and what comes in is in order.
    pub open spec fn wf(&self) -> bool {
        match *self {
            Inner::Connected(c) => c.send_serializer.wf() && c.recv_deserializer.wf(),
            Inner::RemoteClosed(c) => c.send_serializer.wf(),
            Inner::LocalClosed(c) => c.send_serializer.wf() && c.recv_deserializer.wf(),
            Inner::Closing(c) => c.send_serializer.wf(),
            _ => true,
        }
    }

    /// A channel between `local` and `remote`. The link is one to be made if
    /// this process is the one that connects, and one that was made by the other
    /// process, if there is one yet, otherwise.
    pub fn connect(local: SocketAddr, remote: SocketAddr, link: Option<Link>) -> (r: Inner)
        requires
            local != remote,
            connects_by_hash(local, remote) ==> link is Some,
        ensures
            r.wf(),
            r@ == (State::Connecting {
                side: if connects_by_hash(local, remote) {
                    Side::Outgoing
                } else {
                    Side::Incoming
                },
                conn: link_view(link),
            }),
    {
        let side = if ord_by_hash(&local, &remote) {
            Side::Outgoing
        } else {
            Side::Incoming
        };
        Inner::Connecting(InnerConnecting { side, link })
    }

    /// A channel between `local` and `remote` where the addresses themselves decide
    /// which process connects. The link is as for `connect`.
    pub fn connect_by_address(local: SocketAddr, remote: SocketAddr, link: Option<Link>) -> (r:
        Inner)
        requires
            local != remote,
            connects(local, remote) ==> link is Some,
        ensures
            r.wf(),
            r@ == (State::Connecting {
                side: if connects(local, remote) {
                    Side::Outgoing
                } else {
                    Side::Incoming
                },
                conn: link_view(link),
            }),
    {
        let side = if ord(&local, &remote) {
            Side::Outgoing
        } else {
            Side::Incoming
        };
        Inner::Connecting(InnerConnecting { side, link })
    }

    fn begin_connected(c: InnerConnected, frame: Option<usize>) -> (r: (Inner, Option<Ask>))
        requires
            c.send_serializer.wf(),
            c.recv_deserializer.wf(),
            frame matches Some(n) ==> n > 0,
        ensures
            ({
                let s = begun_connected(
                    c.link@,
                    c.send_serializer.remaining(),
                    c.recv_deserializer.state(),
                    c.recv_deserializer_given,
                    frame,
                );
                r.0.wf() && r.0@ == s.state && r.1 == s.next
            }),
    {
        let mut c = c;
        let _ = send_some(&mut c.link, &mut c.send_serializer);
        let _ = receive_some(&mut c.link, &mut c.recv_deserializer, frame);
        (Inner::Connected(c), Some(Ask::Poll))
    }

    fn begin_local_closed(c: InnerLocalClosed, frame: Option<usize>) -> (r: (Inner, Option<Ask>))
        requires
            c.send_serializer.wf(),
            c.recv_deserializer.wf(),
            frame matches Some(n) ==> n > 0,
        ensures
            ({
                let s = begun_local_closed(
                    c.link@,
                    c.send_serializer.remaining(),
                    c.recv_deserializer.state(),
                    c.recv_deserializer_given,
                    frame,
                );
                r.0.wf() && r.0@ == s.state && r.1 == s.next
            }),
    {
        let mut c = c;
        let _ = send_some(&mut c.link, &mut c.send_serializer);
        let _ = receive_some(&mut c.link, &mut c.recv_deserializer, frame);
        (Inner::LocalClosed(c), Some(Ask::Poll))
    }

    fn begin_remote_closed(c: InnerRemoteClosed, drained: bool) -> (r: (Inner, Option<Ask>))
        requires
            c.send_serializer.wf(),
        ensures
            ({
                let s = begun_remote_closed(
                    c.link@,
                    c.send_serializer.remaining(),
                    c.drain,
                    drained,
                );
                r.0.wf() && r.0@ == s.state && r.1 == s.next
            }),
    {
        let mut c = c;
        if c.drain && !c.link.recvable {
            c.drain = false;
        }
        if c.drain && !drained && c.link.inbox.len() > 0 {
            c.link.inbox = Vec::new();
            assert(c.link@.inbox =~= Seq::<u8>::empty());
            return (Inner::RemoteClosed(c), Some(Ask::PollDrained));
        }
        let _ = send_some(&mut c.link, &mut c.send_serializer);
        (Inner::RemoteClosed(c), Some(Ask::Poll))
    }

    fn begin_closing(c: InnerClosing, drained: bool) -> (r: (Inner, Option<Ask>))
        requires
            c.send_serializer.wf(),
        ensures
            ({
                let s = begun_closing(c.link@, c.send_serializer.remaining(), c.drain, drained);
                r.0.wf() && r.0@ == s.state && r.1 == s.next
            }),
    {
        let mut c = c;
        if c.drain && !c.link.recvable {
            c.drain = false;
        }
        if c.drain && !drained && c.link.inbox.len() > 0 {
            c.link.inbox = Vec::new();
            assert(c.link@.inbox =~= Seq::<u8>::empty());
            return (Inner::Closing(c), Some(Ask::PollDrained));
        }
        let _ = send_some(&mut c.link, &mut c.send_serializer);
        (Inner::Closing(c), Some(Ask::Poll))
    }

    fn settle_local_closed(c: InnerLocalClosed) -> (r: (Inner, Option<Ask>))
        requires
            c.send_serializer.wf(),
            c.recv_deserializer.wf(),
        ensures
            ({
                let s = settled_local_closed(
                    c.link@,
                    c.send_serializer.remaining(),
                    c.recv_deserializer.state(),
                    c.recv_deserializer_given,
                );
                r.0.wf() && r.0@ == s.state && r.1 == s.next
            }),
    {
        if !c.link.recvable && !c.recv_deserializer.mid() && !c.recv_deserializer.pull2_avail() {
            Inner::begin_closing(
                InnerClosing { link: c.link, send_serializer: c.send_serializer, drain: false },
                false,
            )
        } else if !c.link.valid {
            (Inner::Killed, None)
        } else {
            (Inner::LocalClosed(c), None)
        }
    }

    fn settle_closing(c: InnerClosing) -> (r: (Inner, Option<Ask>))
        requires
            c.send_serializer.wf(),
        ensures
            ({
                let s = settled_closing(c.link@, c.send_serializer.remaining(), c.drain);
                r.0.wf() && r.0@ == s.state && r.1 == s.next
            }),
    {
        if !c.link.valid {
            (Inner::Killed, None)
        } else if c.link.closed {
            (Inner::Closed, None)
        } else {
            (Inner::Closing(c), None)
        }
    }

    fn poll_connected(c: InnerConnected, seen: Seen, frame: Option<usize>) -> (r: (Inner, Option<Ask>))
        requires
            c.send_serializer.wf(),
            c.recv_deserializer.wf(),
            frame matches Some(n) ==> n > 0,
        ensures
            ({
                let s = step(Inner::Connected(c)@, seen, frame);
                r.0.wf() && r.0@ == s.state && r.1 == s.next
            }),
    {
        let mut c = c;
        let ghost link = c.link@;
        let ghost out = c.send_serializer.remaining();
        let ghost inc = c.recv_deserializer.state();
        let sent = send_some(&mut c.link, &mut c.send_serializer);
        let received = receive_some(&mut c.link, &mut c.recv_deserializer, frame);
        if seen == Seen::Start || sent || received {
            return (Inner::Connected(c), Some(Ask::Poll));
        }
        proof {
            lemma_nothing_moved(link, out, inc, frame);
        }
        if !c.link.recvable && !c.recv_deserializer.mid()
            && !c.recv_deserializer.pull2_avail() {
            Inner::begin_remote_closed(
                InnerRemoteClosed {
                    link: c.link,
                    send_serializer: c.send_serializer,
                    drain: false,
                },
                false,
            )
        } else if !c.link.valid {
            (Inner::Killed, None)
        } else {
            (Inner::Connected(c), None)
        }
    }

    fn poll_remote_closed(c: InnerRemoteClosed, seen: Seen, frame: Option<usize>) -> (r: (Inner, Option<Ask>))
        requires
            c.send_serializer.wf(),
            frame matches Some(n) ==> n > 0,
        ensures
            ({
                let s = step(Inner::RemoteClosed(c)@, seen, frame);
                r.0.wf() && r.0@ == s.state && r.1 == s.next
            }),
    {
        if seen == Seen::Start {
            return Inner::begin_remote_closed(c, false);
        }
        if seen == Seen::Did(Ask::PollDrained) {
            return Inner::begin_remote_closed(c, true);
        }
        let mut c = c;
        proof {
            lemma_nothing_moved(
                c.link@,
                c.send_serializer.remaining(),
                Incoming::Idle,
                frame,
            );
        }
        let sent = send_some(&mut c.link, &mut c.send_serializer);
        if sent {
            return (Inner::RemoteClosed(c), Some(Ask::Poll));
        }
        if !c.link.valid {
            return (Inner::Killed, None);
        }
        (Inner::RemoteClosed(c), None)
    }

    fn poll_local_closed(c: InnerLocalClosed, seen: Seen, frame: Option<usize>) -> (r: (Inner, Option<Ask>))
        requires
            c.send_serializer.wf(),
            c.recv_deserializer.wf(),
            frame matches Some(n) ==> n > 0,
        ensures
            ({
                let s = step(Inner::LocalClosed(c)@, seen, frame);
                r.0.wf() && r.0@ == s.state && r.1 == s.next
            }),
    {
        if seen == Seen::Did(Ask::Close) {
            return Inner::settle_local_closed(c);
        }
        let mut c = c;
        let ghost link = c.link@;
        let ghost out = c.send_serializer.remaining();
        let ghost inc = c.recv_deserializer.state();
        let sent = send_some(&mut c.link, &mut c.send_serializer);
        let received = receive_some(&mut c.link, &mut c.recv_deserializer, frame);
        if seen == Seen::Start || sent || received {
            return (Inner::LocalClosed(c), Some(Ask::Poll));
        }
        proof {
            lemma_nothing_moved(link, out, inc, frame);
        }
        if c.link.sendable && !c.send_serializer.pull_avail() {
            return (Inner::LocalClosed(c), Some(Ask::Close));
        }
        Inner::settle_local_closed(c)
    }

    fn poll_closing(c: InnerClosing, seen: Seen, frame: Option<usize>) -> (r: (Inner, Option<Ask>))
        requires
            c.send_serializer.wf(),
            frame matches Some(n) ==> n > 0,
        ensures
            ({
                let s = step(Inner::Closing(c)@, seen, frame);
                r.0.wf() && r.0@ == s.state && r.1 == s.next
            }),
    {
        if seen == Seen::Start {
            return Inner::begin_closing(c, false);
        }
        if seen == Seen::Did(Ask::PollDrained) {
            return Inner::begin_closing(c, true);
        }
        if seen == Seen::Did(Ask::Close) {
            return Inner::settle_closing(c);
        }
        let mut c = c;
        proof {
            lemma_nothing_moved(
                c.link@,
                c.send_serializer.remaining(),
                Incoming::Idle,
                frame,
            );
        }
        let sent = send_some(&mut c.link, &mut c.send_serializer);
        if sent {
            return (Inner::Closing(c), Some(Ask::Poll));
        }
        if c.link.sendable && !c.send_serializer.pull_avail() {
            return (Inner::Closing(c), Some(Ask::Close));
        }
        Inner::settle_closing(c)
    }

    /// Looks after the channel, after what was done to its connection. `frame`
    /// says after how many more bytes the value that is waited for is complete,
    /// if the bytes that have come hold that many.
    pub fn poll(self, seen: Seen, frame: Option<usize>) -> (r: (Inner, Option<Ask>))
        requires
            self.wf(),
            seen == Seen::Start ==> in_order(self@),
            frame matches Some(n) ==> n > 0,
        ensures
            r.0.wf(),
            r.0@ == step(self@, seen, frame).state,
            r.1 == step(self@, seen, frame).next,
    {
        match self {
            Inner::Connecting(c) => {
                let connecting = match &c.link {
                    None => {
                        return (Inner::Connecting(c), None);
                    },
                    Some(link) => link.connecting,
                };
                if seen == Seen::Start {
                    return (Inner::Connecting(c), Some(Ask::Poll));
                }
                if connecting {
                    return (Inner::Connecting(c), None);
                }
                Inner::begin_connected(
                    InnerConnected {
                        link: c.link.unwrap(),
                        send_serializer: Serializer::new(),
                        recv_deserializer: Deserializer::new(),
                        recv_deserializer_given: false,
                    },
                    frame,
                )
            },
            Inner::ConnectingLocalClosed(c) => {
                let (connecting, closable) = match &c.link {
                    None => {
                        return (Inner::Closed, None);
                    },
                    Some(link) => (link.connecting, link.closable),
                };
                if seen == Seen::Start {
                    return (Inner::ConnectingLocalClosed(c), Some(Ask::Poll));
                }
                if seen == Seen::Did(Ask::Poll) && closable {
                    return (Inner::ConnectingLocalClosed(c), Some(Ask::Close));
                }
                if connecting {
                    return (Inner::ConnectingLocalClosed(c), None);
                }
                Inner::begin_local_closed(
                    InnerLocalClosed {
                        link: c.link.unwrap(),
                        send_serializer: Serializer::new(),
                        recv_deserializer: Deserializer::new(),
                        recv_deserializer_given: false,
                    },
                    frame,
                )
            },
            Inner::Connected(c) => Inner::poll_connected(c, seen, frame),
            Inner::RemoteClosed(c) => Inner::poll_remote_closed(c, seen, frame),
            Inner::LocalClosed(c) => Inner::poll_local_closed(c, seen, frame),
            Inner::Closing(c) => Inner::poll_closing(c, seen, frame),
            Inner::Closed => (Inner::Closed, None),
            Inner::Killed => (Inner::Killed, None),
        }
    }
}

/// What closing a channel makes of it. Whichever side was to make the connection
/// still does.
pub open spec fn local_closed(state: State) -> State {
    match state {
        State::Connecting { side, conn } => State::ConnectingLocalClosed { side, conn },
        State::Connected { link, out, inc, given } => State::LocalClosed { link, out, inc, given },
        State::RemoteClosed { link, out, .. } => State::Closing { link, out, drain: false },
        _ => state,
    }
}

/// Whether a channel can be closed.
pub open spec fn can_close(state: State) -> bool {
    state is Connecting || state is Connected || state is RemoteClosed
}

/// What not listening to a channel any more makes of it.
pub open spec fn drained(state: State) -> State {
    match state {
        State::Connected { link, out, .. } => State::RemoteClosed { link, out, drain: true },
        State::LocalClosed { link, out, .. } => State::Closing { link, out, drain: true },
        _ => state,
    }
}

/// Whether values may come out of a channel.
pub open spec fn can_receive(state: State) -> bool {
    state is Connected || state is LocalClosed
}

/// Whether values may be put into a channel.
pub open spec fn can_send(state: State) -> bool {
    state is Connected || state is RemoteClosed
}

/// The bytes that are still to go out of a channel.
pub open spec fn out_of(state: State) -> Seq<u8> {
    match state {
        State::Connected { out, .. } => out,
        State::RemoteClosed { out, .. } => out,
        State::LocalClosed { out, .. } => out,
        State::Closing { out, .. } => out,
        _ => Seq::empty(),
    }
}

/// How far a value has come into a channel.
pub open spec fn inc_of(state: State) -> Incoming {
    match state {
        State::Connected { inc, .. } => inc,
        State::LocalClosed { inc, .. } => inc,
        _ => Incoming::Idle,
    }
}

/// Whether a value is already waited for in a channel.
pub open spec fn given_of(state: State) -> bool {
    match state {
        State::Connected { given, .. } => given,
        State::LocalClosed { given, .. } => given,
        _ => false,
    }
}

/// The same channel with other bytes to go out.
pub open spec fn with_out(state: State, out: Seq<u8>) -> State {
    match state {
        State::Connected { link, inc, given, .. } => State::Connected { link, out, inc, given },
        State::RemoteClosed { link, drain, .. } => State::RemoteClosed { link, out, drain },
        _ => state,
    }
}

/// The same channel with another value on its way in.
pub open spec fn with_inc(state: State, inc: Incoming, given: bool) -> State {
    match state {
        State::Connected { link, out, .. } => State::Connected { link, out, inc, given },
        State::LocalClosed { link, out, .. } => State::LocalClosed { link, out, inc, given },
        _ => state,
    }
}

/// A value that starts to be waited for, if none is.
pub open spec fn wanted(inc: Incoming) -> Incoming {
    match inc {
        Incoming::Idle => Incoming::Partial(Seq::empty()),
        _ => inc,
    }
}

impl Inner {
    /// Takes a connection that the other side has made. The one before it, if
    /// there is one, comes back to be given up.
    pub fn add_incoming(self, incoming: Link) -> (r: (Inner, Option<Link>))
        requires
            self.wf(),
            match self@ {
                State::Connecting { side, .. } => side == Side::Incoming,
                State::ConnectingLocalClosed { side, .. } => side == Side::Incoming,
                _ => false,
            },
        ensures
            r.0.wf(),
            match self@ {
                State::Connecting { conn, .. } => link_view(r.1) == conn && r.0@
                    == (State::Connecting { side: Side::Incoming, conn: Some(incoming@) }),
                State::ConnectingLocalClosed { conn, .. } => link_view(r.1) == conn && r.0@
                    == (State::ConnectingLocalClosed {
                    side: Side::Incoming,
                    conn: Some(incoming@),
                }),
                _ => false,
            },
    {
        match self {
            Inner::Connecting(c) => (
                Inner::Connecting(InnerConnecting { side: c.side, link: Some(incoming) }),
                c.link,
            ),
            Inner::ConnectingLocalClosed(c) => (
                Inner::ConnectingLocalClosed(
                    InnerConnectingLocalClosed { side: c.side, link: Some(incoming) },
                ),
                c.link,
            ),
            other => (other, Some(incoming)),
        }
    }

    /// Whether the channel's connection is not made yet.
    pub fn connecting(&self) -> (r: bool)
        ensures
            r == (self@ is Connecting || self@ is ConnectingLocalClosed),
    {
        match self {
            Inner::Connecting(_) => true,
            Inner::ConnectingLocalClosed(_) => true,
            _ => false,
        }
    }

    /// Whether values may come out of the channel.
    pub fn recvable(&self) -> (r: bool)
        ensures
            r == can_receive(self@),
    {
        match self {
            Inner::Connected(_) => true,
            Inner::LocalClosed(_) => true,
            _ => false,
        }
    }

    /// Whether a value has come in whole; `None` if none ever will. A value is
    /// waited for from then on. Also says whether the channel has to be looked
    /// after, which it has when the wait is new.
    pub fn recv_avail(self) -> (r: (Inner, Option<bool>, bool))
        requires
            self.wf(),
        ensures
            r.0.wf(),
            can_receive(self@) ==> r.0@ == with_inc(self@, wanted(inc_of(self@)), true) && r.1
                == Some(inc_of(self@) is Complete) && r.2 == !given_of(self@),
            !can_receive(self@) ==> r.0@ == self@ && r.1 is None && !r.2,
    {
        match self {
            Inner::Connected(c) => {
                let mut c = c;
                let queue = !c.recv_deserializer_given;
                c.recv_deserializer_given = true;
                if c.recv_deserializer.pull_avail() {
                    c.recv_deserializer.pull();
                }
                let avail = c.recv_deserializer.pull2_avail();
                (Inner::Connected(c), Some(avail), queue)
            },
            Inner::LocalClosed(c) => {
                let mut c = c;
                let queue = !c.recv_deserializer_given;
                c.recv_deserializer_given = true;
                if c.recv_deserializer.pull_avail() {
                    c.recv_deserializer.pull();
                }
                let avail = c.recv_deserializer.pull2_avail();
                (Inner::LocalClosed(c), Some(avail), queue)
            },
            other => (other, None, false),
        }
    }

    /// The bytes of the value that has come in. The channel has to be looked
    /// after then.
    pub fn recv(self) -> (r: (Inner, Vec<u8>))
        requires
            self.wf(),
            inc_of(self@) is Complete,
        ensures
            r.0.wf(),
            inc_of(self@) == Incoming::Complete(r.1@),
            r.0@ == with_inc(self@, Incoming::Idle, false),
    {
        match self {
            Inner::Connected(c) => {
                let mut c = c;
                c.recv_deserializer_given = false;
                let bytes = c.recv_deserializer.pull2();
                (Inner::Connected(c), bytes)
            },
            Inner::LocalClosed(c) => {
                let mut c = c;
                c.recv_deserializer_given = false;
                let bytes = c.recv_deserializer.pull2();
                (Inner::LocalClosed(c), bytes)
            },
            other => (other, Vec::new()),
        }
    }

    /// Whether the channel can stop being listened to.
    pub fn drainable(&self) -> (r: bool)
        ensures
            r == can_receive(self@),
    {
        self.recvable()
    }

    /// Stops listening to the channel, and starts to look after it.
    pub fn drain(self) -> (r: (Inner, Option<Ask>))
        requires
            self.wf(),
            can_receive(self@),
        ensures
            r.0.wf(),
            r.0@ == step(drained(self@), Seen::Start, None).state,
            r.1 == step(drained(self@), Seen::Start, None).next,
    {
        let after = match self {
            Inner::Connected(c) => Inner::RemoteClosed(
                InnerRemoteClosed { link: c.link, send_serializer: c.send_serializer, drain: true },
            ),
            Inner::LocalClosed(c) => Inner::Closing(
                InnerClosing { link: c.link, send_serializer: c.send_serializer, drain: true },
            ),
            other => other,
        };
        after.poll(Seen::Start, None)
    }

    /// Whether values may be put into the channel.
    pub fn sendable(&self) -> (r: bool)
        ensures
            r == can_send(self@),
    {
        match self {
            Inner::Connected(_) => true,
            Inner::RemoteClosed(_) => true,
            _ => false,
        }
    }

    /// Whether a value can be put into the channel now; `None` if none ever can.
    pub fn send_avail(&self) -> (r: Option<bool>)
        requires
            self.wf(),
        ensures
            r == (if can_send(self@) {
                Some(out_of(self@).len() == 0)
            } else {
                None
            }),
    {
        match self {
            Inner::Connected(c) => Some(c.send_serializer.push_avail()),
            Inner::RemoteClosed(c) => Some(c.send_serializer.push_avail()),
            _ => None,
        }
    }

    /// Puts a value into the channel, given by its bytes. The channel has to be
    /// looked after then.
    pub fn send(self, bytes: Vec<u8>) -> (r: Inner)
        requires
            self.wf(),
            can_send(self@),
            out_of(self@).len() == 0,
        ensures
            r.wf(),
            r@ == with_out(self@, bytes@),
    {
        match self {
            Inner::Connected(c) => {
                let mut c = c;
                c.send_serializer.push(bytes);
                Inner::Connected(c)
            },
            Inner::RemoteClosed(c) => {
                let mut c = c;
                c.send_serializer.push(bytes);
                Inner::RemoteClosed(c)
            },
            other => other,
        }
    }

    /// Whether the channel can be closed.
    pub fn closable(&self) -> (r: bool)
        ensures
            r == can_close(self@),
    {
        match self {
            Inner::Connecting(_) => true,
            Inner::Connected(_) => true,
            Inner::RemoteClosed(_) => true,
            _ => false,
        }
    }

    /// Whether the channel has ended on both sides.
    pub fn closed(&self) -> (r: bool)
        ensures
            r == (self@ is Closed),
    {
        match self {
            Inner::Closed => true,
            _ => false,
        }
    }

    /// Whether the channel is not lost.
    pub fn valid(&self) -> (r: bool)
        ensures
            r == !(self@ is Killed),
    {
        match self {
            Inner::Killed => false,
            _ => true,
        }
    }

    /// Ends this side of the channel, and starts to look after it. What has
    /// been put into it still goes out.
    pub fn close(self, frame: Option<usize>) -> (r: (Inner, Option<Ask>))
        requires
            self.wf(),
            can_close(self@),
            self@ matches State::RemoteClosed { link, .. } ==> !link.recvable,
            frame matches Some(n) ==> n > 0,
        ensures
            r.0.wf(),
            r.0@ == step(local_closed(self@), Seen::Start, frame).state,
            r.1 == step(local_closed(self@), Seen::Start, frame).next,
    {
        let after = match self {
            Inner::Connecting(c) => Inner::ConnectingLocalClosed(
                InnerConnectingLocalClosed { side: c.side, link: c.link },
            ),
            Inner::Connected(c) => Inner::LocalClosed(
                InnerLocalClosed {
                    link: c.link,
                    send_serializer: c.send_serializer,
                    recv_deserializer: c.recv_deserializer,
                    recv_deserializer_given: c.recv_deserializer_given,
                },
            ),
            Inner::RemoteClosed(c) => Inner::Closing(
                InnerClosing { link: c.link, send_serializer: c.send_serializer, drain: false },
            ),
            other => other,
        };
        after.poll(Seen::Start, frame)
    }
}

/// The connection of a channel.
pub open spec fn link_of(state: State) -> Option<LinkView> {
    match state {
        State::Connecting { conn, .. } => conn,
        State::ConnectingLocalClosed { conn, .. } => conn,
        State::Connected { link, .. } => Some(link),
        State::RemoteClosed { link, .. } => Some(link),
        State::LocalClosed { link, .. } => Some(link),
        State::Closing { link, .. } => Some(link),
        State::Closed => None,
        State::Killed => None,
    }
}

/// The same channel with another connection.
pub open spec fn with_link(state: State, link: LinkView) -> State {
    match state {
        State::Connecting { side, .. } => State::Connecting { side, conn: Some(link) },
        State::ConnectingLocalClosed { side, .. } => State::ConnectingLocalClosed {
            side,
            conn: Some(link),
        },
        State::Connected { out, inc, given, .. } => State::Connected { link, out, inc, given },
        State::RemoteClosed { out, drain, .. } => State::RemoteClosed { link, out, drain },
        State::LocalClosed { out, inc, given, .. } => State::LocalClosed { link, out, inc, given },
        State::Closing { out, drain, .. } => State::Closing { link, out, drain },
        State::Closed => State::Closed,
        State::Killed => State::Killed,
    }
}

impl Inner {
    /// Puts `link` in the place of the channel's connection, and gives that. A
    /// channel that has none keeps none.
    pub fn swap_link(self, link: Link) -> (r: (Inner, Option<Link>))
        requires
            self.wf(),
        ensures
            r.0.wf(),
            link_view(r.1) == link_of(self@),
            r.0@ == (if link_of(self@) is Some {
                with_link(self@, link@)
            } else {
                self@
            }),
    {
        match self {
            Inner::Connecting(c) => match c.link {
                Some(before) => (
                    Inner::Connecting(InnerConnecting { side: c.side, link: Some(link) }),
                    Some(before),
                ),
                None => (Inner::Connecting(c), None),
            },
            Inner::ConnectingLocalClosed(c) => match c.link {
                Some(before) => (
                    Inner::ConnectingLocalClosed(
                        InnerConnectingLocalClosed { side: c.side, link: Some(link) },
                    ),
                    Some(before),
                ),
                None => (Inner::ConnectingLocalClosed(c), None),
            },
            Inner::Connected(c) => {
                let before = c.link;
                (
                    Inner::Connected(
                        InnerConnected {
                            link,
                            send_serializer: c.send_serializer,
                            recv_deserializer: c.recv_deserializer,
                            recv_deserializer_given: c.recv_deserializer_given,
                        },
                    ),
                    Some(before),
                )
            },
            Inner::RemoteClosed(c) => {
                let before = c.link;
                (
                    Inner::RemoteClosed(
                        InnerRemoteClosed {
                            link,
                            send_serializer: c.send_serializer,
                            drain: c.drain,
                        },
                    ),
                    Some(before),
                )
            },
            Inner::LocalClosed(c) => {
                let before = c.link;
                (
                    Inner::LocalClosed(
                        InnerLocalClosed {
                            link,
                            send_serializer: c.send_serializer,
                            recv_deserializer: c.recv_deserializer,
                            recv_deserializer_given: c.recv_deserializer_given,
                        },
                    ),
                    Some(before),
                )
            },
            Inner::Closing(c) => {
                let before = c.link;
                (
                    Inner::Closing(
                        InnerClosing {
                            link,
                            send_serializer: c.send_serializer,
                            drain: c.drain,
                        },
                    ),
                    Some(before),
                )
            },
            Inner::Closed => (Inner::Closed, None),
            Inner::Killed => (Inner::Killed, None),
        }
    }

    /// The bytes that have come in so far of the value that is waited for; `None`
    /// if none is.
    pub fn partial(&self) -> (r: Option<Vec<u8>>)
        requires
            self.wf(),
        ensures
            match r {
                Some(bytes) => can_receive(self@) && inc_of(self@) == Incoming::Partial(bytes@),
                None => !can_receive(self@) || !(inc_of(self@) is Partial),
            },
    {
        match self {
            Inner::Connected(c) => c.recv_deserializer.partial(),
            Inner::LocalClosed(c) => c.recv_deserializer.partial(),
            _ => None,
        }
    }

    /// Whether `poll` takes a start: whether a connection from which nothing is
    /// read any more brings nothing more.
    pub fn is_in_order(&self) -> (r: bool)
        ensures
            r == in_order(self@),
    {
        match self {
            Inner::RemoteClosed(c) => c.drain || !c.link.recvable,
            Inner::Closing(c) => c.drain || !c.link.recvable,
            _ => true,
        }
    }
}

/// The bytes that the connection of a channel has been given to send.
pub open spec fn outbox_of(state: State) -> Seq<u8> {
    match state {
        State::Connecting { conn: Some(link), .. } => link.outbox,
        State::ConnectingLocalClosed { conn: Some(link), .. } => link.outbox,
        State::Connected { link, .. } => link.outbox,
        State::RemoteClosed { link, .. } => link.outbox,
        State::LocalClosed { link, .. } => link.outbox,
        State::Closing { link, .. } => link.outbox,
        _ => Seq::empty(),
    }
}

/// The bytes that have come over the connection of a channel and have not been
/// taken.
pub open spec fn inbox_of(state: State) -> Seq<u8> {
    match state {
        State::Connected { link, .. } => link.inbox,
        State::LocalClosed { link, .. } => link.inbox,
        _ => Seq::empty(),
    }
}

/// The bytes of a value that have come in.
pub open spec fn bytes_of(inc: Incoming) -> Seq<u8> {
    match inc {
        Incoming::Idle => Seq::empty(),
        Incoming::Partial(bytes) => bytes,
        Incoming::Complete(bytes) => bytes,
    }
}

proof fn lemma_sent(link: LinkView, out: Seq<u8>)
    requires
        link.room >= 0,
    ensures
        link_sent(link, out).outbox + out.skip(outgoing(link, out)) == link.outbox + out,
{
    let k = outgoing(link, out);
    assert(link.outbox + out.take(k) + out.skip(k) =~= link.outbox + out);
}

proof fn lemma_received(link: LinkView, inc: Incoming, frame: Option<usize>)
    ensures
        bytes_of(value_received(link, inc, frame)) + link_received(link, inc, frame).inbox
            == bytes_of(inc) + link.inbox,
{
    let n = incoming(link, inc, frame);
    assert(bytes_of(inc) + link.inbox.take(n) + link.inbox.skip(n) =~= bytes_of(inc) + link.inbox);
    assert(link.inbox.skip(0) =~= link.inbox);
}

/// The room of a connection is never less than nothing.
pub open spec fn room_known(state: State) -> bool {
    match state {
        State::Connecting { conn: Some(link), .. } => link.room >= 0,
        State::ConnectingLocalClosed { conn: Some(link), .. } => link.room >= 0,
        State::Connected { link, .. } => link.room >= 0,
        State::RemoteClosed { link, .. } => link.room >= 0,
        State::LocalClosed { link, .. } => link.room >= 0,
        State::Closing { link, .. } => link.room >= 0,
        _ => true,
    }
}

/// As long as a channel is not lost and has not ended, what has been put into it
/// either has been given to the connection or is still to go out, in order.
pub proof fn law_what_goes_in_goes_out(state: State, seen: Seen, frame: Option<usize>)
    requires
        room_known(state),
    ensures
        ({
            let after = step(state, seen, frame).state;
            !(after is Killed) && !(after is Closed) ==> outbox_of(after) + out_of(after)
                == outbox_of(state) + out_of(state)
        }),
{
    let after = step(state, seen, frame).state;
    match state {
        State::Connecting { conn: Some(link), .. } => {
            lemma_sent(link, Seq::empty());
        },
        State::ConnectingLocalClosed { conn: Some(link), .. } => {
            lemma_sent(link, Seq::empty());
        },
        State::Connected { link, out, .. } => {
            lemma_sent(link, out);
        },
        State::RemoteClosed { link, out, .. } => {
            lemma_sent(link, out);
        },
        State::LocalClosed { link, out, .. } => {
            lemma_sent(link, out);
        },
        State::Closing { link, out, .. } => {
            lemma_sent(link, out);
        },
        _ => {},
    }
}

/// As long as values may come out of a channel, every byte that has come over
/// its connection is either part of the value that comes in or still to be
/// taken, in order.
pub proof fn law_what_comes_is_kept(state: State, seen: Seen, frame: Option<usize>)
    requires
        can_receive(state),
    ensures
        ({
            let after = step(state, seen, frame).state;
            can_receive(after) ==> bytes_of(inc_of(after)) + inbox_of(after) == bytes_of(
                inc_of(state),
            ) + inbox_of(state)
        }),
{
    match state {
        State::Connected { link, out, inc, .. } => {
            lemma_received(link_sent(link, out), inc, frame);
        },
        State::LocalClosed { link, out, inc, .. } => {
            lemma_received(link_sent(link, out), inc, frame);
        },
        _ => {},
    }
}

/// This side of a connection that is made is ended only once everything that was
/// put into the channel has been given to it.
pub proof fn law_closes_after_everything_is_sent(state: State, seen: Seen, frame: Option<usize>)
    requires
        step(state, seen, frame).next == Some(Ask::Close),
    ensures
        out_of(step(state, seen, frame).state).len() == 0,
{
}

/// A channel that has ended or is lost stays so.
pub proof fn law_the_end_is_final(state: State, seen: Seen, frame: Option<usize>)
    requires
        state is Closed || state is Killed,
    ensures
        step(state, seen, frame) == waits(state),
        !can_close(state),
        !can_send(state),
        !can_receive(state),
{
}

/// The connection of a channel works.
pub open spec fn works(state: State) -> bool {
    link_of(state) matches Some(link) && link.valid
}

/// Looking after a channel never drops what has come in: as long as its
/// connection works, a channel in which something of a value has arrived still
/// gives it, with all that came after it.
pub proof fn law_what_arrived_is_not_dropped(state: State, seen: Seen, frame: Option<usize>)
    requires
        can_receive(state),
        bytes_of(inc_of(state)).len() > 0,
        works(state),
    ensures
        ({
            let after = step(state, seen, frame).state;
            &&& can_receive(after)
            &&& bytes_of(inc_of(after)) + inbox_of(after) == bytes_of(inc_of(state)) + inbox_of(state)
            &&& inc_of(state) is Complete ==> inc_of(after) == inc_of(state)
        }),
{
    law_what_comes_is_kept(state, seen, frame);
}

/// A value that is complete is kept until it is taken even if it is empty.
pub proof fn law_a_complete_value_is_kept(state: State, seen: Seen, frame: Option<usize>)
    requires
        can_receive(state),
        inc_of(state) is Complete,
        works(state),
    ensures
        can_receive(step(state, seen, frame).state),
        inc_of(step(state, seen, frame).state) == inc_of(state),
{
}

/// A channel is lost only if its connection is broken.
pub proof fn law_only_what_is_broken_is_lost(state: State, seen: Seen, frame: Option<usize>)
    requires
        !(state is Killed),
        step(state, seen, frame).state is Killed,
    ensures
        link_of(state) matches Some(link) && !link.valid,
{
}

/// A channel ends only once both sides have ended and its connection says so, or
/// if there never was a connection; nothing that was put into it is left then.
pub proof fn law_ends_only_when_both_sides_have(state: State, seen: Seen, frame: Option<usize>)
    requires
        !(state is Closed),
        step(state, seen, frame).state is Closed,
    ensures
        state is Closing || state is ConnectingLocalClosed,
        link_of(state) matches Some(link) ==> link.valid && link.closed,
        state is ConnectingLocalClosed ==> link_of(state) is None,
{
}

/// A channel stops listening by itself only if nothing more can come and nothing
/// that has come is left. It never stops taking values by itself.
pub proof fn law_listens_until_nothing_more_comes(state: State, seen: Seen, frame: Option<usize>)
    requires
        can_receive(state),
        works(state),
        !can_receive(step(state, seen, frame).state),
    ensures
        link_of(state) matches Some(link) && !link.recvable,
        bytes_of(inc_of(state)).len() == 0,
        !(inc_of(state) is Complete),
        can_send(state) ==> can_send(step(state, seen, frame).state),
{
}

/// As soon as a channel is looked after, as many bytes go out as there is room
/// for, and bytes that have come are taken up to the end of the value that is
/// waited for; the value is complete then, and only then.
pub proof fn law_bytes_move_at_once(
    link: LinkView,
    out: Seq<u8>,
    so_far: Seq<u8>,
    given: bool,
    frame: Option<usize>,
    local_closed: bool,
)
    requires
        link.sendable,
        link.recvable,
        link.room >= 0,
    ensures
        ({
            let inc = Incoming::Partial(so_far);
            let state = if local_closed {
                State::LocalClosed { link, out, inc, given }
            } else {
                State::Connected { link, out, inc, given }
            };
            let after = step(state, Seen::Start, frame).state;
            &&& outbox_of(after).len() > outbox_of(state).len() || out.len() == 0 || link.room == 0
            &&& out_of(after).len() == 0 || outbox_of(after).len() - outbox_of(state).len()
                == link.room
            &&& outbox_of(after).len() - outbox_of(state).len() <= link.room
            &&& frame is Some && frame->0 <= link.inbox.len() ==> inc_of(after) is Complete
                && bytes_of(inc_of(after)).len() == so_far.len() + frame->0
            &&& frame is None || frame->0 > link.inbox.len() ==> inc_of(after) is Partial
                && inbox_of(after).len() == 0
            &&& bytes_of(inc_of(after)) + inbox_of(after) == so_far + link.inbox
        }),
{
    lemma_received(link_sent(link, out), Incoming::Partial(so_far), frame);
}

/// Nothing is read of a connection while no value is waited for, and nothing is
/// read beyond a value that is complete.
pub proof fn law_nothing_is_read_unasked(state: State, seen: Seen, frame: Option<usize>)
    requires
        can_receive(state),
        !(inc_of(state) is Partial),
        can_receive(step(state, seen, frame).state),
    ensures
        inc_of(step(state, seen, frame).state) == inc_of(state),
        inbox_of(step(state, seen, frame).state) == inbox_of(state),
{
    match state {
        State::Connected { link, out, inc, .. } => {
            assert(link.inbox.skip(0) =~= link.inbox);
        },
        State::LocalClosed { link, out, inc, .. } => {
            assert(link.inbox.skip(0) =~= link.inbox);
        },
        _ => {},
    }
}

/// Ending this side of a channel loses nothing: what was put into it and what has
/// come is kept, nothing more can be put into it, and what still comes can be
/// taken as before.
pub proof fn law_ending_a_side_keeps_what_is_there(state: State)
    requires
        can_close(state),
    ensures
        ({
            let after = local_closed(state);
            &&& out_of(after) == out_of(state)
            &&& inc_of(after) == inc_of(state)
            &&& given_of(after) == given_of(state)
            &&& link_of(after) == link_of(state)
            &&& !can_send(after)
            &&& can_receive(after) == can_receive(state)
            &&& !can_close(after)
            &&& state matches State::Connecting { side, .. } ==> (after
                matches State::ConnectingLocalClosed { side: other, .. } && other == side)
        }),
{
}

/// Not listening to a channel any more keeps what was put into it.
pub proof fn law_not_listening_keeps_what_goes_out(state: State)
    requires
        can_receive(state),
    ensures
        ({
            let after = drained(state);
            &&& out_of(after) == out_of(state)
            &&& link_of(after) == link_of(state)
            &&& !can_receive(after)
            &&& can_send(after) == can_send(state)
        }),
{
}

/// What is put into a channel is what is to go out of it, and what is said to have
/// come is what comes out; neither changes anything else.
pub proof fn law_values_are_put_and_taken(state: State, out: Seq<u8>, inc: Incoming, given: bool)
    ensures
        can_send(state) ==> out_of(with_out(state, out)) == out && can_send(with_out(state, out)),
        link_of(with_out(state, out)) == link_of(state),
        inc_of(with_out(state, out)) == inc_of(state),
        given_of(with_out(state, out)) == given_of(state),
        can_receive(with_out(state, out)) == can_receive(state),
        can_receive(state) ==> inc_of(with_inc(state, inc, given)) == inc && given_of(
            with_inc(state, inc, given),
        ) == given && can_receive(with_inc(state, inc, given)),
        link_of(with_inc(state, inc, given)) == link_of(state),
        out_of(with_inc(state, inc, given)) == out_of(state),
        can_send(with_inc(state, inc, given)) == can_send(state),
        bytes_of(wanted(inc)) == bytes_of(inc),
        !(wanted(inc) is Idle),
        !(inc is Idle) ==> wanted(inc) == inc,
{
}

/// Values can be put into a channel from the moment its connection is made until
/// this side ends, and taken from then until the other side does.
pub proof fn law_who_may_send_and_receive(state: State)
    ensures
        can_send(state) <==> state is Connected || state is RemoteClosed,
        can_receive(state) <==> state is Connected || state is LocalClosed,
        state is Connecting || state is ConnectingLocalClosed || state is Closing || state is Closed
            || state is Killed ==> !can_send(state) && !can_receive(state),
{
}

/// A connection that is made makes the channel one that can be used, with nothing
/// on its way; until then the channel waits.
pub proof fn law_a_made_connection_is_used(
    side: Side,
    link: LinkView,
    seen: Seen,
    frame: Option<usize>,
)
    requires
        seen != Seen::Start,
        link.room >= 0,
    ensures
        ({
            let state = State::Connecting { side, conn: Some(link) };
            let after = step(state, seen, frame);
            &&& link.connecting ==> after.state == state && after.next is None
            &&& !link.connecting ==> can_send(after.state) && can_receive(after.state) && out_of(
                after.state,
            ).len() == 0 && inc_of(after.state) is Idle && inbox_of(after.state) == link.inbox
                && outbox_of(after.state) == link.outbox
        }),
{
    assert(link.inbox.skip(0) =~= link.inbox);
    assert(Seq::<u8>::empty().take(0) =~= Seq::<u8>::empty());
    assert(link.outbox + Seq::<u8>::empty().take(0) =~= link.outbox);
}

/// The process connects whose address has the lesser hash where the hashes first
/// differ; without hashes, the one with the greater address.
pub proof fn law_which_side_connects(a: SocketAddr, b: SocketAddr, n: int)
    requires
        1 <= n <= u128::MAX,
        addr_hash(a, n) != addr_hash(b, n),
        forall|m: int| 1 <= m < n ==> #[trigger] addr_hash(a, m) == addr_hash(b, m),
    ensures
        connects_by_hash(a, b) <==> addr_hash(a, n) < addr_hash(b, n),
        connects(a, b) <==> addr_before(b, a),
{
    assert(first_difference(a, b, n));
    let m = choose|m: int| first_difference(a, b, m);
    lemma_first_difference_unique(a, b, n, m);
}

/// A channel that is given another connection uses that, and keeps all else that it
/// has.
pub proof fn law_another_connection_is_used(state: State, link: LinkView)
    requires
        link_of(state) is Some,
    ensures
        ({
            let after = with_link(state, link);
            &&& link_of(after) == Some(link)
            &&& with_link(after, link_of(state)->0) == state
            &&& out_of(after) == out_of(state)
            &&& inc_of(after) == inc_of(state)
            &&& can_send(after) == can_send(state)
            &&& can_receive(after) == can_receive(state)
        }),
{
}

/// A channel is looked after until nothing is left to do: its connection is polled,
/// and then, once it is left alone, it is lost if the connection is broken; it still
/// listens only if something may come or be taken; its side of the connection is ended
/// if this side has and everything went out; and it has ended if the connection has.
pub proof fn law_nothing_is_left_undone(state: State, seen: Seen, frame: Option<usize>)
    requires
        link_of(state) is Some,
    ensures
        ({
            let done = step(state, seen, frame);
            let link = link_of(state)->0;
            &&& seen == Seen::Start ==> done.next == Some(Ask::Poll) || done.next == Some(
                Ask::PollDrained,
            )
            &&& done.next is None && !link.valid && (can_send(state) || can_receive(state) || state
                is Closing) ==> done.state is Killed
            &&& done.next is None && can_receive(done.state) ==> link.recvable || bytes_of(
                inc_of(state),
            ).len() > 0 || inc_of(state) is Complete
            &&& done.next is None && seen == Seen::Did(Ask::Poll) && (done.state is LocalClosed
                || done.state is Closing) ==> !link.sendable || out_of(state).len() > 0
            &&& done.next == Some(Ask::Close) ==> seen != Seen::Start && seen != Seen::Did(
                Ask::Close,
            )
            &&& state is Closing && seen == Seen::Did(Ask::Close) && link.valid && link.closed
                ==> done.state is Closed
        }),
{
}

/// What comes over a channel that is not listened to any more is thrown away only if
/// it is to be.
pub proof fn law_thrown_away_only_if_told(
    link: LinkView,
    out: Seq<u8>,
    drain: bool,
    closing: bool,
)
    requires
        link.recvable,
    ensures
        ({
            let state = if closing {
                State::Closing { link, out, drain }
            } else {
                State::RemoteClosed { link, out, drain }
            };
            let after = step(state, Seen::Start, None).state;
            &&& link_of(after) is Some
            &&& drain ==> link_of(after)->0.inbox.len() == 0
            &&& !drain ==> link_of(after)->0.inbox == link.inbox
            &&& closing <==> after is Closing
            &&& !closing <==> after is RemoteClosed
        }),
{
}

} // verus!
