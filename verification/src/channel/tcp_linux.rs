//! One TCP connection between two processes, from the handshake to the end.
//!
//! A connection asks one thing of the socket at a time and goes on with the
//! answer. Moments are numbers of nanoseconds on a clock that never runs back.

use crate::channel::circularbuffer::{
    is_loss, receive_step, send_step, CircularBuffer, CircularBufferReadToFd,
    CircularBufferWriteFromFd, Readable, ReceiveStep, Received, Receiving, SendStep, Sending, Sent,
    Writable, ECONNRESET, ETIMEDOUT,
};
use crate::net::SocketAddr;
use vstd::prelude::*;

verus! {

/// What the side that was connected to sends first.
pub const INCOMING_MAGIC: u64 = 123456789098765432;

/// What the side that connects sends first.
pub const OUTGOING_MAGIC: u64 = 223456789098765432;

/// For how long a handshake is waited for: a minute.
pub const CONNECT_TIMEOUT: u64 = 60_000_000_000;

/// How long after a failure to connect it is tried again: a tenth of a
/// millisecond.
pub const RETRY_DELAY: u64 = 100_000;

/// How often it is looked whether everything has left for the other side: every
/// millisecond.
pub const LINGER_DELAY: u64 = 1_000_000;

/// How many bytes a connection holds in each direction.
pub const BUF: usize = 65536;

/// What a connection asks of its socket.
#[derive(Copy, Clone, PartialEq, Eq, Debug, Structural)]
pub enum Ask {
    /// Open a socket at `local`, watch it, and start to connect it to `remote`.
    Open { local: SocketAddr, remote: SocketAddr },
    /// Which error has the socket met with?
    Error(i32),
    /// Can anything be sent?
    Writable(i32),
    /// Send this number.
    SendMagic(i32, u64),
    /// Which number comes first? Leave it to be received.
    PeekMagic(i32),
    /// Receive the number that comes first.
    TakeMagic(i32),
    /// Which error has the socket met with before anything is sent?
    SendError(i32),
    /// Send what is to be sent.
    Send(i32, Sending),
    /// Which error has the socket met with before anything is received?
    ReceiveError(i32),
    /// Receive as much as there is room for.
    Receive(i32, Receiving),
    /// Let the other side know that nothing more will be sent.
    Shutdown(i32),
    /// How much has not yet left for the other side?
    Unsent(i32),
}

/// What comes back for it.
#[derive(Clone, PartialEq, Eq, Debug)]
pub enum Answer {
    /// The socket, whether it is on its way to be connected, which error it has
    /// met with, and the moment.
    Opened { fd: i32, in_progress: bool, error: i32, now: u64 },
    /// The error number; zero for none.
    Error(i32),
    /// Whether anything can be sent, and the moment.
    Writable { ready: bool, now: u64 },
    /// The number was sent.
    MagicSent,
    /// The connection was reset, or the other side has ended.
    Gone,
    /// The number that comes first.
    Magic(u64),
    /// Nothing has come yet, and the moment.
    Pending { now: u64 },
    /// The number was received.
    Taken,
    /// What the try to send met with.
    Sent(Sent),
    /// What the try to receive met with.
    Received(Received),
    /// Whether the other side could be let know.
    ShutDown(bool),
    /// How much has not yet left, and the moment.
    Unsent { bytes: usize, now: u64 },
}

/// What is done to a socket besides.
#[derive(Copy, Clone, PartialEq, Eq, Debug, Structural)]
pub enum Effect {
    /// The socket is no longer watched.
    Unwatch(i32),
    /// The socket is closed.
    Close(i32),
    /// The connection is looked after again at that moment.
    WakeAt(u64),
}

/// How far the side that connects has come.
#[derive(Copy, Clone, PartialEq, Eq, Debug, Structural)]
pub enum LinuxTcpConnecterState {
    Init,
    /// A socket is on its way to be connected, until a moment.
    Connecting1(i32, u64),
    /// The number has been sent, and the other side's is waited for, until a
    /// moment.
    Connecting2(i32, u64),
}

/// Where a handshake goes on.
#[derive(Copy, Clone, PartialEq, Eq, Debug, Structural)]
pub enum Next {
    Ask(Ask),
    /// It starts again.
    Restart,
    /// Nothing more is to be done for now.
    Wait,
    /// The socket is connected.
    Connected(i32),
    /// The connection is lost.
    Lost,
}

/// A handshake after an answer: how far it has come, what is done besides, and
/// where it goes on.
#[verifier::ext_equal]
pub struct ConnectStep {
    pub state: LinuxTcpConnecterState,
    pub effects: Seq<Effect>,
    pub next: Next,
}

/// The handshake of the side that connects starts again without the socket.
pub open spec fn dropped(fd: i32) -> ConnectStep {
    ConnectStep {
        state: LinuxTcpConnecterState::Init,
        effects: seq![Effect::Unwatch(fd), Effect::Close(fd)],
        next: Next::Restart,
    }
}

/// The first thing that the side that connects asks of a socket that it has.
pub open spec fn connect_ask(state: LinuxTcpConnecterState) -> Option<Ask> {
    match state {
        LinuxTcpConnecterState::Init => None,
        LinuxTcpConnecterState::Connecting1(fd, _) => Some(Ask::Error(fd)),
        LinuxTcpConnecterState::Connecting2(fd, _) => Some(Ask::Error(fd)),
    }
}

/// Whether the side that connects may be asking that, and may get that answer.
/// A number other than the one that the other side sends never comes first.
pub open spec fn connect_asks(
    state: LinuxTcpConnecterState,
    ask: Ask,
    answer: Answer,
) -> bool {
    match state {
        LinuxTcpConnecterState::Init => match (ask, answer) {
            (Ask::Open { .. }, Answer::Opened { now, .. }) => now + CONNECT_TIMEOUT <= u64::MAX,
            _ => false,
        },
        LinuxTcpConnecterState::Connecting1(fd, _) => match (ask, answer) {
            (Ask::Error(f), Answer::Error(_)) => f == fd,
            (Ask::Writable(f), Answer::Writable { .. }) => f == fd,
            (Ask::SendMagic(f, magic), Answer::MagicSent) => f == fd && magic == OUTGOING_MAGIC,
            (Ask::SendMagic(f, magic), Answer::Gone) => f == fd && magic == OUTGOING_MAGIC,
            _ => false,
        },
        LinuxTcpConnecterState::Connecting2(fd, timeout) => match (ask, answer) {
            (Ask::Error(f), Answer::Error(_)) => f == fd,
            (Ask::PeekMagic(f), Answer::Magic(magic)) => f == fd && magic == INCOMING_MAGIC,
            (Ask::PeekMagic(f), Answer::Gone) => f == fd,
            (Ask::PeekMagic(f), Answer::Pending { now }) => f == fd && timeout + CONNECT_TIMEOUT
                <= u64::MAX,
            (Ask::TakeMagic(f), Answer::Taken) => f == fd,
            _ => false,
        },
    }
}

/// The handshake of the side that connects after an answer.
pub open spec fn connect_step(
    state: LinuxTcpConnecterState,
    ask: Ask,
    answer: Answer,
) -> ConnectStep {
    let asks = |state: LinuxTcpConnecterState, ask: Ask|
        ConnectStep { state, effects: Seq::empty(), next: Next::Ask(ask) };
    match (state, answer) {
        (LinuxTcpConnecterState::Init, Answer::Opened { fd, in_progress, error, now }) => if in_progress
            && error == 0 {
            asks(
                LinuxTcpConnecterState::Connecting1(fd, (now + CONNECT_TIMEOUT) as u64),
                Ask::Error(fd),
            )
        } else {
            ConnectStep {
                state,
                effects: seq![
                    Effect::Unwatch(fd),
                    Effect::Close(fd),
                    Effect::WakeAt((now + RETRY_DELAY) as u64),
                ],
                next: Next::Wait,
            }
        },
        (LinuxTcpConnecterState::Connecting1(fd, timeout), Answer::Error(error)) => if error
            == 0 {
            asks(state, Ask::Writable(fd))
        } else {
            dropped(fd)
        },
        (LinuxTcpConnecterState::Connecting1(fd, timeout), Answer::Writable { ready, now }) => if ready {
            asks(state, Ask::SendMagic(fd, OUTGOING_MAGIC))
        } else if timeout < now {
            dropped(fd)
        } else {
            ConnectStep { state, effects: Seq::empty(), next: Next::Wait }
        },
        (LinuxTcpConnecterState::Connecting1(fd, timeout), Answer::MagicSent) => asks(
            LinuxTcpConnecterState::Connecting2(fd, timeout),
            Ask::Error(fd),
        ),
        (LinuxTcpConnecterState::Connecting2(fd, timeout), Answer::Error(error)) => if error
            == 0 {
            asks(state, Ask::PeekMagic(fd))
        } else {
            dropped(fd)
        },
        (LinuxTcpConnecterState::Connecting2(fd, timeout), Answer::Magic(_)) => asks(
            state,
            Ask::TakeMagic(fd),
        ),
        (LinuxTcpConnecterState::Connecting2(fd, timeout), Answer::Pending { now }) => if timeout
            < now {
            asks(
                LinuxTcpConnecterState::Connecting2(fd, (timeout + CONNECT_TIMEOUT) as u64),
                Ask::Error(fd),
            )
        } else {
            ConnectStep { state, effects: Seq::empty(), next: Next::Wait }
        },
        (LinuxTcpConnecterState::Connecting2(fd, timeout), Answer::Taken) => ConnectStep {
            state: LinuxTcpConnecterState::Init,
            effects: Seq::empty(),
            next: Next::Connected(fd),
        },
        (LinuxTcpConnecterState::Connecting1(fd, _), _) => dropped(fd),
        (LinuxTcpConnecterState::Connecting2(fd, _), _) => dropped(fd),
        (LinuxTcpConnecterState::Init, _) => ConnectStep {
            state,
            effects: Seq::empty(),
            next: Next::Wait,
        },
    }
}

/// The descriptors that the side that connects holds.
pub open spec fn connecter_holds(state: LinuxTcpConnecterState) -> Set<i32> {
    match state {
        LinuxTcpConnecterState::Init => Set::empty(),
        LinuxTcpConnecterState::Connecting1(fd, _) => set![fd],
        LinuxTcpConnecterState::Connecting2(fd, _) => set![fd],
    }
}

/// Goes on with the handshake of the side that connects.
fn connect_on(state: LinuxTcpConnecterState, ask: Ask, answer: &Answer, effects: &mut Vec<Effect>) -> (r: (
    LinuxTcpConnecterState,
    Next,
))
    requires
        connect_asks(state, ask, *answer),
    ensures
        r.0 == connect_step(state, ask, *answer).state,
        r.1 == connect_step(state, ask, *answer).next,
        final(effects)@ == old(effects)@ + connect_step(state, ask, *answer).effects,
{
    let ghost step = connect_step(state, ask, *answer);
    let r = match (state, answer) {
        (LinuxTcpConnecterState::Init, Answer::Opened { fd, in_progress, error, now }) => {
            if *in_progress && *error == 0 {
                (
                    LinuxTcpConnecterState::Connecting1(*fd, *now + CONNECT_TIMEOUT),
                    Next::Ask(Ask::Error(*fd)),
                )
            } else {
                effects.push(Effect::Unwatch(*fd));
                effects.push(Effect::Close(*fd));
                effects.push(Effect::WakeAt(*now + RETRY_DELAY));
                (state, Next::Wait)
            }
        },
        (LinuxTcpConnecterState::Connecting1(fd, _), Answer::Error(error)) => {
            if *error == 0 {
                (state, Next::Ask(Ask::Writable(fd)))
            } else {
                effects.push(Effect::Unwatch(fd));
                effects.push(Effect::Close(fd));
                (LinuxTcpConnecterState::Init, Next::Restart)
            }
        },
        (LinuxTcpConnecterState::Connecting1(fd, timeout), Answer::Writable { ready, now }) => {
            if *ready {
                (state, Next::Ask(Ask::SendMagic(fd, OUTGOING_MAGIC)))
            } else if timeout < *now {
                effects.push(Effect::Unwatch(fd));
                effects.push(Effect::Close(fd));
                (LinuxTcpConnecterState::Init, Next::Restart)
            } else {
                (state, Next::Wait)
            }
        },
        (LinuxTcpConnecterState::Connecting1(fd, timeout), Answer::MagicSent) => (
            LinuxTcpConnecterState::Connecting2(fd, timeout),
            Next::Ask(Ask::Error(fd)),
        ),
        (LinuxTcpConnecterState::Connecting2(fd, _), Answer::Error(error)) => {
            if *error == 0 {
                (state, Next::Ask(Ask::PeekMagic(fd)))
            } else {
                effects.push(Effect::Unwatch(fd));
                effects.push(Effect::Close(fd));
                (LinuxTcpConnecterState::Init, Next::Restart)
            }
        },
        (LinuxTcpConnecterState::Connecting2(fd, _), Answer::Magic(_)) => (
            state,
            Next::Ask(Ask::TakeMagic(fd)),
        ),
        (LinuxTcpConnecterState::Connecting2(fd, timeout), Answer::Pending { now }) => {
            if timeout < *now {
                (
                    LinuxTcpConnecterState::Connecting2(fd, timeout + CONNECT_TIMEOUT),
                    Next::Ask(Ask::Error(fd)),
                )
            } else {
                (state, Next::Wait)
            }
        },
        (LinuxTcpConnecterState::Connecting2(fd, _), Answer::Taken) => (
            LinuxTcpConnecterState::Init,
            Next::Connected(fd),
        ),
        (LinuxTcpConnecterState::Connecting1(fd, _), _) => {
            effects.push(Effect::Unwatch(fd));
            effects.push(Effect::Close(fd));
            (LinuxTcpConnecterState::Init, Next::Restart)
        },
        (LinuxTcpConnecterState::Connecting2(fd, _), _) => {
            effects.push(Effect::Unwatch(fd));
            effects.push(Effect::Close(fd));
            (LinuxTcpConnecterState::Init, Next::Restart)
        },
        (LinuxTcpConnecterState::Init, _) => (state, Next::Wait),
    };
    assert(effects@ =~= old(effects)@ + step.effects);
    r
}

/// Which descriptors `effects` close.
pub open spec fn closes(effects: Seq<Effect>) -> Set<i32> {
    Set::new(|fd: i32| effects.contains(Effect::Close(fd)))
}

/// No descriptor is lost in the handshake of the side that connects, and none is
/// closed that is still held: each that is held or has been opened is afterwards
/// held, closed, or handed on as connected.
pub proof fn law_connecter_loses_no_descriptor(
    state: LinuxTcpConnecterState,
    ask: Ask,
    answer: Answer,
)
    requires
        connect_asks(state, ask, answer),
    ensures
        ({
            let step = connect_step(state, ask, answer);
            let opened: Set<i32> = match answer {
                Answer::Opened { fd, .. } => set![fd],
                _ => Set::empty(),
            };
            let handed: Set<i32> = match step.next {
                Next::Connected(fd) => set![fd],
                _ => Set::empty(),
            };
            &&& connecter_holds(state).union(opened) =~= connecter_holds(step.state).union(
                closes(step.effects),
            ).union(handed)
            &&& connecter_holds(step.state).disjoint(closes(step.effects))
        }),
{
    let step = connect_step(state, ask, answer);
    let opened: Set<i32> = match answer {
        Answer::Opened { fd, .. } => set![fd],
        _ => Set::empty(),
    };
    match state {
        LinuxTcpConnecterState::Connecting1(fd, _) => {
            lemma_dropped_closes(fd);
        },
        LinuxTcpConnecterState::Connecting2(fd, _) => {
            lemma_dropped_closes(fd);
        },
        LinuxTcpConnecterState::Init => {
            match answer {
                Answer::Opened { fd, in_progress, error, now } => {
                    let all = seq![
                        Effect::Unwatch(fd),
                        Effect::Close(fd),
                        Effect::WakeAt((now + RETRY_DELAY) as u64),
                    ];
                    assert(all[1] == Effect::Close(fd));
                    assert(closes(all) =~= set![fd]);
                },
                _ => {},
            }
        },
    }
    assert(closes(Seq::empty()) =~= Set::<i32>::empty());
}

proof fn lemma_dropped_closes(fd: i32)
    ensures
        closes(dropped(fd).effects) == set![fd],
{
    assert(dropped(fd).effects[1] == Effect::Close(fd));
    assert(closes(dropped(fd).effects) =~= set![fd]);
}

/// The side that connects is connected only once it has sent its number and has
/// received the other side's: it can be so only from the state that sending the
/// number leads to, and only on receiving.
pub proof fn law_connected_after_both_numbers(
    state: LinuxTcpConnecterState,
    ask: Ask,
    answer: Answer,
)
    requires
        connect_asks(state, ask, answer),
    ensures
        connect_step(state, ask, answer).next matches Next::Connected(fd) ==> (state matches
            LinuxTcpConnecterState::Connecting2(f, _) && f == fd) && answer == Answer::Taken,
        connect_step(state, ask, answer).state matches LinuxTcpConnecterState::Connecting2(fd, _)
            ==> state is Connecting2 || (answer == Answer::MagicSent && ask == Ask::SendMagic(
            fd,
            OUTGOING_MAGIC,
        )),
        connect_step(state, ask, answer).next == Next::Ask(
            Ask::TakeMagic(
                match state {
                    LinuxTcpConnecterState::Connecting2(fd, _) => fd,
                    _ => 0,
                },
            ),
        ) && state is Connecting2 ==> answer == Answer::Magic(INCOMING_MAGIC),
{
}

/// A connection, as a plain value.
#[verifier::ext_equal]
pub enum Tcp {
    Connecter { state: LinuxTcpConnecterState, local: SocketAddr, remote: SocketAddr },
    Connectee { fd: i32, timeout: u64, sent: bool, remote: SocketAddr },
    ConnecterLocalClosed { state: LinuxTcpConnecterState, local: SocketAddr, remote: SocketAddr },
    ConnecteeLocalClosed { fd: i32, timeout: u64, sent: bool, remote: SocketAddr },
    Connected {
        fd: i32,
        send: Seq<u8>,
        recv: Seq<u8>,
        remote_closed: bool,
        remote: SocketAddr,
    },
    RemoteClosed { fd: i32, send: Seq<u8>, remote: SocketAddr },
    LocalClosed {
        fd: i32,
        send: Seq<u8>,
        recv: Seq<u8>,
        remote_closed: bool,
        given: bool,
        remote: SocketAddr,
    },
    Closing { fd: i32, send: Seq<u8>, given: bool, remote: SocketAddr },
    Closed,
    Killed,
}

/// A connection after an answer: what has become of it, what is done besides,
/// and what is asked next; nothing if it is to be left alone for now.
#[verifier::ext_equal]
pub struct Step {
    pub tcp: Tcp,
    pub effects: Seq<Effect>,
    pub next: Option<Ask>,
}

/// Asks something.
pub open spec fn asks(tcp: Tcp, ask: Ask) -> Step {
    Step { tcp, effects: Seq::empty(), next: Some(ask) }
}

/// Leaves a connection alone for now.
pub open spec fn waits(tcp: Tcp) -> Step {
    Step { tcp, effects: Seq::empty(), next: None }
}

/// Gives a connection up.
pub open spec fn killed(fd: i32) -> Step {
    Step { tcp: Tcp::Killed, effects: seq![Effect::Close(fd)], next: None }
}

/// What looking after a connection starts with. One that was closed before any
/// socket was opened for it has nothing to be looked after.
pub open spec fn begun(tcp: Tcp) -> Step {
    match tcp {
        Tcp::Connecter { state, local, remote } => match connect_ask(state) {
            Some(ask) => asks(tcp, ask),
            None => asks(tcp, Ask::Open { local, remote }),
        },
        Tcp::ConnecterLocalClosed { state, local, remote } => match connect_ask(state) {
            Some(ask) => asks(tcp, ask),
            None => waits(Tcp::Closed),
        },
        Tcp::Connectee { fd, .. } => asks(tcp, Ask::Error(fd)),
        Tcp::ConnecteeLocalClosed { fd, .. } => asks(tcp, Ask::Error(fd)),
        Tcp::Connected { fd, .. } => asks(tcp, Ask::Error(fd)),
        Tcp::RemoteClosed { fd, .. } => asks(tcp, Ask::Error(fd)),
        Tcp::LocalClosed { fd, .. } => asks(tcp, Ask::Error(fd)),
        Tcp::Closing { fd, .. } => asks(tcp, Ask::Error(fd)),
        Tcp::Closed => waits(tcp),
        Tcp::Killed => waits(tcp),
    }
}

/// What a connection starts with on a socket whose handshake is done.
pub open spec fn connected(fd: i32, local_closed: bool, remote: SocketAddr) -> Step {
    let (send, recv) = (Seq::<u8>::empty(), Seq::<u8>::empty());
    if local_closed {
        begun(Tcp::LocalClosed { fd, send, recv, remote_closed: false, given: false, remote })
    } else {
        begun(Tcp::Connected { fd, send, recv, remote_closed: false, remote })
    }
}

/// The handshake of the side that was connected to after an answer.
pub open spec fn accept_step(
    tcp: Tcp,
    fd: i32,
    timeout: u64,
    sent: bool,
    local_closed: bool,
    remote: SocketAddr,
    answer: Answer,
) -> Step {
    let at = |timeout: u64, sent: bool|
        if local_closed {
            Tcp::ConnecteeLocalClosed { fd, timeout, sent, remote }
        } else {
            Tcp::Connectee { fd, timeout, sent, remote }
        };
    match answer {
        Answer::Error(error) => if error != 0 {
            killed(fd)
        } else if sent {
            asks(tcp, Ask::PeekMagic(fd))
        } else {
            asks(tcp, Ask::SendMagic(fd, INCOMING_MAGIC))
        },
        Answer::MagicSent => asks(at(timeout, true), Ask::PeekMagic(fd)),
        Answer::Magic(_) => asks(tcp, Ask::TakeMagic(fd)),
        Answer::Taken => connected(fd, local_closed, remote),
        Answer::Pending { now } => waits(
            at(
                if timeout < now {
                    (timeout + CONNECT_TIMEOUT) as u64
                } else {
                    timeout
                },
                sent,
            ),
        ),
        _ => killed(fd),
    }
}

/// What is left to send after a try.
pub open spec fn left(send: Seq<u8>, sent: Sent) -> Seq<u8> {
    match sent {
        Sent::Items(n) => send.skip(n as int),
        _ => send,
    }
}

/// What has been received after a try.
pub open spec fn gained(recv: Seq<u8>, received: Received) -> Seq<u8> {
    match received {
        Received::Items(items) => recv + items@,
        _ => recv,
    }
}

/// Once everything has been sent and received that could be: a connection whose
/// other side has ended, and of which everything has been read, only sends from
/// then on.
pub open spec fn settled(tcp: Tcp) -> Step {
    match tcp {
        Tcp::Connected { fd, send, recv, remote_closed, remote } => if !remote_closed || recv.len()
            > 0 {
            waits(tcp)
        } else {
            begun(Tcp::RemoteClosed { fd, send, remote })
        },
        Tcp::LocalClosed { fd, send, recv, remote_closed, given, remote } => if !remote_closed
            || recv.len() > 0 {
            waits(tcp)
        } else {
            begun(Tcp::Closing { fd, send, given, remote })
        },
        Tcp::Closing { fd, given, .. } => if given {
            asks(tcp, Ask::Unsent(fd))
        } else {
            waits(tcp)
        },
        _ => waits(tcp),
    }
}

/// Once everything has been received that could be: the other side is let know
/// that nothing more will be sent, if it has to be.
pub open spec fn after_receiving(tcp: Tcp) -> Step {
    match tcp {
        Tcp::LocalClosed { fd, send, given, .. } => if !given && send.len() == 0 {
            asks(tcp, Ask::Shutdown(fd))
        } else {
            settled(tcp)
        },
        Tcp::Closing { fd, send, given, .. } => if !given && send.len() == 0 {
            asks(tcp, Ask::Shutdown(fd))
        } else {
            settled(tcp)
        },
        _ => settled(tcp),
    }
}

/// Once everything has been sent that could be: what can be received is, as long
/// as the other side has not ended.
pub open spec fn after_sending(tcp: Tcp) -> Step {
    match tcp {
        Tcp::Connected { fd, remote_closed, .. } => if remote_closed {
            after_receiving(tcp)
        } else {
            asks(tcp, Ask::ReceiveError(fd))
        },
        Tcp::LocalClosed { fd, remote_closed, .. } => if remote_closed {
            after_receiving(tcp)
        } else {
            asks(tcp, Ask::ReceiveError(fd))
        },
        _ => after_receiving(tcp),
    }
}

/// The same connection with something else left to send.
pub open spec fn with_send(tcp: Tcp, send: Seq<u8>) -> Tcp {
    match tcp {
        Tcp::Connected { fd, recv, remote_closed, remote, .. } => Tcp::Connected {
            fd,
            send,
            recv,
            remote_closed,
            remote,
        },
        Tcp::RemoteClosed { fd, remote, .. } => Tcp::RemoteClosed { fd, send, remote },
        Tcp::LocalClosed { fd, recv, remote_closed, given, remote, .. } => Tcp::LocalClosed {
            fd,
            send,
            recv,
            remote_closed,
            given,
            remote,
        },
        Tcp::Closing { fd, given, remote, .. } => Tcp::Closing { fd, send, given, remote },
        _ => tcp,
    }
}

/// The same connection with something else received, and with the other side
/// ended or not.
pub open spec fn with_recv(tcp: Tcp, recv: Seq<u8>, remote_closed: bool) -> Tcp {
    match tcp {
        Tcp::Connected { fd, send, remote, .. } => Tcp::Connected {
            fd,
            send,
            recv,
            remote_closed,
            remote,
        },
        Tcp::LocalClosed { fd, send, given, remote, .. } => Tcp::LocalClosed {
            fd,
            send,
            recv,
            remote_closed,
            given,
            remote,
        },
        _ => tcp,
    }
}

/// The same connection, of which the other side has been let know that nothing
/// more will be sent.
pub open spec fn with_given(tcp: Tcp) -> Tcp {
    match tcp {
        Tcp::LocalClosed { fd, send, recv, remote_closed, remote, .. } => Tcp::LocalClosed {
            fd,
            send,
            recv,
            remote_closed,
            given: true,
            remote,
        },
        Tcp::Closing { fd, send, remote, .. } => Tcp::Closing { fd, send, given: true, remote },
        _ => tcp,
    }
}

/// What a connection is still to send.
pub open spec fn to_send(tcp: Tcp) -> Seq<u8> {
    match tcp {
        Tcp::Connected { send, .. } => send,
        Tcp::RemoteClosed { send, .. } => send,
        Tcp::LocalClosed { send, .. } => send,
        Tcp::Closing { send, .. } => send,
        _ => Seq::empty(),
    }
}

/// What a connection has received and is still to be read.
pub open spec fn to_read(tcp: Tcp) -> Seq<u8> {
    match tcp {
        Tcp::Connected { recv, .. } => recv,
        Tcp::LocalClosed { recv, .. } => recv,
        _ => Seq::empty(),
    }
}

/// The socket of a connection whose handshake is done.
pub open spec fn link_fd(tcp: Tcp) -> i32 {
    match tcp {
        Tcp::Connected { fd, .. } => fd,
        Tcp::RemoteClosed { fd, .. } => fd,
        Tcp::LocalClosed { fd, .. } => fd,
        Tcp::Closing { fd, .. } => fd,
        _ => 0,
    }
}

/// Whether the handshake of a connection is done and it has a socket.
pub open spec fn is_link(tcp: Tcp) -> bool {
    tcp is Connected || tcp is RemoteClosed || tcp is LocalClosed || tcp is Closing
}

/// A connection whose handshake is done after an answer.
pub open spec fn link_step(tcp: Tcp, ask: Ask, answer: Answer) -> Step {
    let fd = link_fd(tcp);
    match (ask, answer) {
        (Ask::Error(_), Answer::Error(error)) => if error != 0 {
            killed(fd)
        } else if tcp matches Tcp::LocalClosed { given, .. } && given {
            after_sending(tcp)
        } else {
            asks(tcp, Ask::SendError(fd))
        },
        (Ask::SendError(_), Answer::Error(error)) => asks(
            tcp,
            Ask::Send(fd, Sending { error, written: 0 }),
        ),
        (Ask::Send(_, run), Answer::Sent(sent)) => {
            let after = with_send(tcp, left(to_send(tcp), sent));
            match send_step(run, sent) {
                SendStep::More(run) => asks(after, Ask::Send(fd, run)),
                SendStep::Done(CircularBufferReadToFd::Killed) => killed(fd),
                SendStep::Done(CircularBufferReadToFd::Written(_)) => after_sending(after),
            }
        },
        (Ask::ReceiveError(_), Answer::Error(error)) => asks(
            tcp,
            Ask::Receive(fd, Receiving { error, read: 0 }),
        ),
        (Ask::Receive(_, run), Answer::Received(received)) => {
            let recv = gained(to_read(tcp), received);
            match receive_step(run, received) {
                ReceiveStep::More(run) => asks(with_recv(tcp, recv, false), Ask::Receive(fd, run)),
                ReceiveStep::Done(CircularBufferWriteFromFd::Killed) => killed(fd),
                ReceiveStep::Done(CircularBufferWriteFromFd::Read(_, closed)) => after_receiving(
                    with_recv(tcp, recv, closed),
                ),
            }
        },
        (Ask::Shutdown(_), Answer::ShutDown(done)) => if done {
            settled(with_given(tcp))
        } else {
            killed(fd)
        },
        (Ask::Unsent(_), Answer::Unsent { bytes, now }) => if bytes == 0 {
            Step {
                tcp: Tcp::Closed,
                effects: seq![Effect::Unwatch(fd), Effect::Close(fd)],
                next: None,
            }
        } else {
            Step { tcp, effects: seq![Effect::WakeAt((now + LINGER_DELAY) as u64)], next: None }
        },
        _ => waits(tcp),
    }
}

/// Whether a connection whose handshake is done may be asking that, and may get
/// that answer.
pub open spec fn link_asks(tcp: Tcp, ask: Ask, answer: Answer) -> bool {
    let fd = link_fd(tcp);
    match (ask, answer) {
        (Ask::Error(f), Answer::Error(_)) => f == fd,
        (Ask::SendError(f), Answer::Error(_)) => f == fd,
        (Ask::Send(f, run), Answer::Sent(sent)) => f == fd && match sent {
            Sent::Items(n) => n <= to_send(tcp).len() && run.written + n <= usize::MAX,
            Sent::Failed => true,
            Sent::WouldBlock => run.error == 0 || is_loss(run.error),
            Sent::Drained(error) => to_send(tcp).len() == 0 && (error != 0 || run.error == 0
                || is_loss(run.error)),
        },
        (Ask::ReceiveError(f), Answer::Error(_)) => f == fd && may_receive(tcp),
        (Ask::Receive(f, run), Answer::Received(received)) => f == fd && may_receive(tcp) && (
        match received {
            Received::Items(items) => to_read(tcp).len() + items@.len() <= BUF && run.read
                + items@.len() <= usize::MAX,
            Received::Failed => true,
            Received::Full(_) => to_read(tcp).len() == BUF && (run.error == 0 || is_loss(
                run.error,
            )),
            _ => run.error == 0 || is_loss(run.error),
        }),
        (Ask::Shutdown(f), Answer::ShutDown(_)) => f == fd && to_send(tcp).len() == 0 && (tcp
            is LocalClosed || tcp is Closing),
        (Ask::Unsent(f), Answer::Unsent { now, .. }) => f == fd && tcp is Closing && has_given(tcp)
            && now + LINGER_DELAY <= u64::MAX,
        _ => false,
    }
}

/// Whether the other side has been let know that nothing more will be sent.
pub open spec fn has_given(tcp: Tcp) -> bool {
    match tcp {
        Tcp::LocalClosed { given, .. } => given,
        Tcp::Closing { given, .. } => given,
        _ => false,
    }
}

/// Whether a connection receives anything.
pub open spec fn may_receive(tcp: Tcp) -> bool {
    match tcp {
        Tcp::Connected { remote_closed, .. } => !remote_closed,
        Tcp::LocalClosed { remote_closed, .. } => !remote_closed,
        _ => false,
    }
}

/// Whether a connection may be asking that, and may get that answer.
pub open spec fn tcp_asks(tcp: Tcp, ask: Ask, answer: Answer) -> bool {
    match tcp {
        Tcp::Connecter { state, local, remote } => connect_asks(state, ask, answer),
        Tcp::ConnecterLocalClosed { state, .. } => !(state is Init) && connect_asks(
            state,
            ask,
            answer,
        ),
        Tcp::Connectee { fd, timeout, sent, .. } => accept_asks(fd, timeout, sent, ask, answer),
        Tcp::ConnecteeLocalClosed { fd, timeout, sent, .. } => accept_asks(
            fd,
            timeout,
            sent,
            ask,
            answer,
        ),
        Tcp::Closed => false,
        Tcp::Killed => false,
        _ => link_asks(tcp, ask, answer),
    }
}

/// Whether the side that was connected to may be asking that, and may get that
/// answer. A number other than the one that the other side sends never comes
/// first.
pub open spec fn accept_asks(fd: i32, timeout: u64, sent: bool, ask: Ask, answer: Answer) -> bool {
    match (ask, answer) {
        (Ask::Error(f), Answer::Error(_)) => f == fd,
        (Ask::SendMagic(f, magic), Answer::MagicSent) => f == fd && !sent && magic
            == INCOMING_MAGIC,
        (Ask::SendMagic(f, magic), Answer::Gone) => f == fd && !sent && magic == INCOMING_MAGIC,
        (Ask::PeekMagic(f), Answer::Magic(magic)) => f == fd && sent && magic == OUTGOING_MAGIC,
        (Ask::PeekMagic(f), Answer::Gone) => f == fd && sent,
        (Ask::PeekMagic(f), Answer::Pending { now }) => f == fd && sent && timeout + CONNECT_TIMEOUT
            <= u64::MAX,
        (Ask::TakeMagic(f), Answer::Taken) => f == fd && sent,
        _ => false,
    }
}

/// A connection after an answer.
pub open spec fn tcp_step(tcp: Tcp, ask: Ask, answer: Answer) -> Step {
    match tcp {
        Tcp::Connecter { state, local, remote } => {
            let step = connect_step(state, ask, answer);
            let at = Tcp::Connecter { state: step.state, local, remote };
            match step.next {
                Next::Ask(ask) => Step { tcp: at, effects: step.effects, next: Some(ask) },
                Next::Restart => Step {
                    tcp: at,
                    effects: step.effects,
                    next: Some(Ask::Open { local, remote }),
                },
                Next::Connected(fd) => connected(fd, false, remote),
                _ => Step { tcp: at, effects: step.effects, next: None },
            }
        },
        Tcp::ConnecterLocalClosed { state, local, remote } => {
            let step = connect_step(state, ask, answer);
            let at = Tcp::ConnecterLocalClosed { state: step.state, local, remote };
            match step.next {
                Next::Ask(ask) => Step { tcp: at, effects: step.effects, next: Some(ask) },
                Next::Restart => Step { tcp: Tcp::Closed, effects: step.effects, next: None },
                Next::Connected(fd) => connected(fd, true, remote),
                _ => Step { tcp: at, effects: step.effects, next: None },
            }
        },
        Tcp::Connectee { fd, timeout, sent, remote } => accept_step(
            tcp,
            fd,
            timeout,
            sent,
            false,
            remote,
            answer,
        ),
        Tcp::ConnecteeLocalClosed { fd, timeout, sent, remote } => accept_step(
            tcp,
            fd,
            timeout,
            sent,
            true,
            remote,
            answer,
        ),
        Tcp::Closed => waits(tcp),
        Tcp::Killed => waits(tcp),
        _ => link_step(tcp, ask, answer),
    }
}

/// What closing a connection makes of it.
pub open spec fn local_closed(tcp: Tcp) -> Tcp {
    match tcp {
        Tcp::Connecter { state, local, remote } => Tcp::ConnecterLocalClosed {
            state,
            local,
            remote,
        },
        Tcp::Connectee { fd, timeout, sent, remote } => Tcp::ConnecteeLocalClosed {
            fd,
            timeout,
            sent,
            remote,
        },
        Tcp::Connected { fd, send, recv, remote_closed, remote } => Tcp::LocalClosed {
            fd,
            send,
            recv,
            remote_closed,
            given: false,
            remote,
        },
        Tcp::RemoteClosed { fd, send, remote } => Tcp::Closing { fd, send, given: false, remote },
        _ => tcp,
    }
}

/// Whether a connection can be closed.
pub open spec fn can_close(tcp: Tcp) -> bool {
    tcp is Connecter || tcp is Connectee || tcp is Connected || tcp is RemoteClosed
}

/// The side that connects, during the handshake.
pub struct LinuxTcpConnecter {
    pub state: LinuxTcpConnecterState,
    pub local: SocketAddr,
    pub remote: SocketAddr,
}

/// The side that was connected to, during the handshake.
pub struct LinuxTcpConnectee {
    pub fd: i32,
    pub timeout: u64,
    pub sent: bool,
    pub remote: SocketAddr,
}

/// The side that connects, during the handshake, when this side has ended.
pub struct LinuxTcpConnecterLocalClosed {
    pub state: LinuxTcpConnecterState,
    pub local: SocketAddr,
    pub remote: SocketAddr,
}

/// The side that was connected to, during the handshake, when it has ended.
pub struct LinuxTcpConnecteeLocalClosed {
    pub fd: i32,
    pub timeout: u64,
    pub sent: bool,
    pub remote: SocketAddr,
}

/// A connection in both directions.
pub struct LinuxTcpConnection {
    pub fd: i32,
    pub send: CircularBuffer<u8>,
    pub recv: CircularBuffer<u8>,
    pub remote_closed: bool,
    pub remote: SocketAddr,
}

/// A connection of which the other side has ended.
pub struct LinuxTcpConnectionRemoteClosed {
    pub fd: i32,
    pub send: CircularBuffer<u8>,
    pub remote: SocketAddr,
}

/// A connection of which this side has ended.
pub struct LinuxTcpConnectionLocalClosed {
    pub fd: i32,
    pub send: CircularBuffer<u8>,
    pub recv: CircularBuffer<u8>,
    pub remote_closed: bool,
    pub local_closed_given: bool,
    pub remote: SocketAddr,
}

/// A connection of which both sides have ended, until everything has left.
pub struct LinuxTcpClosing {
    pub fd: i32,
    pub send: CircularBuffer<u8>,
    pub local_closed_given: bool,
    pub remote: SocketAddr,
}

/// A connection.
pub enum LinuxTcp {
    Connecter(LinuxTcpConnecter),
    Connectee(LinuxTcpConnectee),
    ConnecterLocalClosed(LinuxTcpConnecterLocalClosed),
    ConnecteeLocalClosed(LinuxTcpConnecteeLocalClosed),
    Connected(LinuxTcpConnection),
    RemoteClosed(LinuxTcpConnectionRemoteClosed),
    LocalClosed(LinuxTcpConnectionLocalClosed),
    Closing(LinuxTcpClosing),
    Closed,
    Killed,
}

/// A queue of a connection is in order and of the right size.
pub open spec fn queue_wf(queue: CircularBuffer<u8>) -> bool {
    queue.wf() && queue.spec_len() == BUF
}

impl View for LinuxTcp {
    type V = Tcp;

    open spec fn view(&self) -> Tcp {
        match *self {
            LinuxTcp::Connecter(c) => Tcp::Connecter {
                state: c.state,
                local: c.local,
                remote: c.remote,
            },
            LinuxTcp::Connectee(c) => Tcp::Connectee {
                fd: c.fd,
                timeout: c.timeout,
                sent: c.sent,
                remote: c.remote,
            },
            LinuxTcp::ConnecterLocalClosed(c) => Tcp::ConnecterLocalClosed {
                state: c.state,
                local: c.local,
                remote: c.remote,
            },
            LinuxTcp::ConnecteeLocalClosed(c) => Tcp::ConnecteeLocalClosed {
                fd: c.fd,
                timeout: c.timeout,
                sent: c.sent,
                remote: c.remote,
            },
            LinuxTcp::Connected(c) => Tcp::Connected {
                fd: c.fd,
                send: c.send.contents(),
                recv: c.recv.contents(),
                remote_closed: c.remote_closed,
                remote: c.remote,
            },
            LinuxTcp::RemoteClosed(c) => Tcp::RemoteClosed {
                fd: c.fd,
                send: c.send.contents(),
                remote: c.remote,
            },
            LinuxTcp::LocalClosed(c) => Tcp::LocalClosed {
                fd: c.fd,
                send: c.send.contents(),
                recv: c.recv.contents(),
                remote_closed: c.remote_closed,
                given: c.local_closed_given,
                remote: c.remote,
            },
            LinuxTcp::Closing(c) => Tcp::Closing {
                fd: c.fd,
                send: c.send.contents(),
                given: c.local_closed_given,
                remote: c.remote,
            },
            LinuxTcp::Closed => Tcp::Closed,
            LinuxTcp::Killed => Tcp::Killed,
        }
    }
}

/// Two runs of bytes as one.
fn joined(runs: (Vec<u8>, Vec<u8>)) -> (r: Vec<u8>)
    ensures
        r@ == runs.0@ + runs.1@,
{
    let (mut r, mut rest) = runs;
    r.append(&mut rest);
    r
}

/// Whether an error number is none, or one of a connection that is lost.
fn none_or_loss(error: i32) -> (r: bool)
    ensures
        r == (error == 0 || is_loss(error)),
{
    error == 0 || error == ECONNRESET || error == ETIMEDOUT
}

/// Whether the side that connects may be asking that, and may get that answer.
fn connect_takes(state: LinuxTcpConnecterState, ask: &Ask, answer: &Answer) -> (r: bool)
    ensures
        r == connect_asks(state, *ask, *answer),
{
    match state {
        LinuxTcpConnecterState::Init => match (ask, answer) {
            (Ask::Open { .. }, Answer::Opened { now, .. }) => *now <= u64::MAX - CONNECT_TIMEOUT,
            _ => false,
        },
        LinuxTcpConnecterState::Connecting1(fd, _) => match (ask, answer) {
            (Ask::Error(f), Answer::Error(_)) => *f == fd,
            (Ask::Writable(f), Answer::Writable { .. }) => *f == fd,
            (Ask::SendMagic(f, magic), Answer::MagicSent) => *f == fd && *magic == OUTGOING_MAGIC,
            (Ask::SendMagic(f, magic), Answer::Gone) => *f == fd && *magic == OUTGOING_MAGIC,
            _ => false,
        },
        LinuxTcpConnecterState::Connecting2(fd, timeout) => match (ask, answer) {
            (Ask::Error(f), Answer::Error(_)) => *f == fd,
            (Ask::PeekMagic(f), Answer::Magic(magic)) => *f == fd && *magic == INCOMING_MAGIC,
            (Ask::PeekMagic(f), Answer::Gone) => *f == fd,
            (Ask::PeekMagic(f), Answer::Pending { .. }) => *f == fd && timeout <= u64::MAX
                - CONNECT_TIMEOUT,
            (Ask::TakeMagic(f), Answer::Taken) => *f == fd,
            _ => false,
        },
    }
}

/// Whether the side that was connected to may be asking that, and may get that
/// answer.
fn accept_takes(fd: i32, timeout: u64, sent: bool, ask: &Ask, answer: &Answer) -> (r: bool)
    ensures
        r == accept_asks(fd, timeout, sent, *ask, *answer),
{
    match (ask, answer) {
        (Ask::Error(f), Answer::Error(_)) => *f == fd,
        (Ask::SendMagic(f, magic), Answer::MagicSent) => *f == fd && !sent && *magic
            == INCOMING_MAGIC,
        (Ask::SendMagic(f, magic), Answer::Gone) => *f == fd && !sent && *magic == INCOMING_MAGIC,
        (Ask::PeekMagic(f), Answer::Magic(magic)) => *f == fd && sent && *magic == OUTGOING_MAGIC,
        (Ask::PeekMagic(f), Answer::Gone) => *f == fd && sent,
        (Ask::PeekMagic(f), Answer::Pending { .. }) => *f == fd && sent && timeout <= u64::MAX
            - CONNECT_TIMEOUT,
        (Ask::TakeMagic(f), Answer::Taken) => *f == fd && sent,
        _ => false,
    }
}

/// What a connection whose handshake is done holds.
struct Held {
    fd: i32,
    /// How many bytes are still to be sent.
    unsent: usize,
    /// How many bytes are still to be read.
    unread: usize,
    /// How many bytes were ever received.
    ever: usize,
    /// Whether anything is received.
    receives: bool,
    /// Whether this side has ended.
    ended: bool,
    /// Whether both sides have ended, and the other one knows.
    lingers: bool,
}

/// Whether a connection whose handshake is done may be asking that, and may get
/// that answer.
spec fn held_asks(of: Held, ask: Ask, answer: Answer) -> bool {
    match (ask, answer) {
        (Ask::Error(f), Answer::Error(_)) => f == of.fd,
        (Ask::SendError(f), Answer::Error(_)) => f == of.fd,
        (Ask::Send(f, run), Answer::Sent(sent)) => f == of.fd && match sent {
            Sent::Items(n) => n <= of.unsent && run.written + n <= usize::MAX,
            Sent::Failed => true,
            Sent::WouldBlock => run.error == 0 || is_loss(run.error),
            Sent::Drained(error) => of.unsent == 0 && (error != 0 || run.error == 0 || is_loss(
                run.error,
            )),
        },
        (Ask::ReceiveError(f), Answer::Error(_)) => f == of.fd && of.receives,
        (Ask::Receive(f, run), Answer::Received(received)) => f == of.fd && of.receives && (
        match received {
            Received::Items(items) => of.unread + items@.len() <= BUF && run.read + items@.len()
                <= usize::MAX && of.ever + items@.len() <= usize::MAX,
            Received::Failed => true,
            Received::Full(_) => of.unread == BUF && (run.error == 0 || is_loss(run.error)),
            _ => run.error == 0 || is_loss(run.error),
        }),
        (Ask::Shutdown(f), Answer::ShutDown(_)) => f == of.fd && of.unsent == 0 && of.ended,
        (Ask::Unsent(f), Answer::Unsent { now, .. }) => f == of.fd && of.lingers && now
            + LINGER_DELAY <= u64::MAX,
        _ => false,
    }
}

fn link_takes(of: Held, ask: &Ask, answer: &Answer) -> (r: bool)
    ensures
        r == held_asks(of, *ask, *answer),
{
    match (ask, answer) {
        (Ask::Error(f), Answer::Error(_)) => *f == of.fd,
        (Ask::SendError(f), Answer::Error(_)) => *f == of.fd,
        (Ask::Send(f, run), Answer::Sent(sent)) => *f == of.fd && match sent {
            Sent::Items(n) => *n <= of.unsent && *n <= usize::MAX - run.written,
            Sent::Failed => true,
            Sent::WouldBlock => none_or_loss(run.error),
            Sent::Drained(error) => of.unsent == 0 && (*error != 0 || none_or_loss(run.error)),
        },
        (Ask::ReceiveError(f), Answer::Error(_)) => *f == of.fd && of.receives,
        (Ask::Receive(f, run), Answer::Received(received)) => *f == of.fd && of.receives
            && match received {
            Received::Items(items) => items.len() <= BUF && of.unread <= BUF - items.len()
                && items.len() <= usize::MAX - run.read && items.len() <= usize::MAX - of.ever,
            Received::Failed => true,
            Received::Full(_) => of.unread == BUF && none_or_loss(run.error),
            _ => none_or_loss(run.error),
        },
        (Ask::Shutdown(f), Answer::ShutDown(_)) => *f == of.fd && of.unsent == 0 && of.ended,
        (Ask::Unsent(f), Answer::Unsent { now, .. }) => *f == of.fd && of.lingers && *now
            <= u64::MAX - LINGER_DELAY,
        _ => false,
    }
}

/// The items that were received leave their count within a machine word.
pub open spec fn receipt_counts(queue: CircularBuffer<u8>, answer: Answer) -> bool {
    answer matches Answer::Received(Received::Items(items)) ==> queue.spec_head() + items@.len()
        <= usize::MAX
}

impl LinuxTcp {
    /// The queues of a connection are in order.
    pub open spec fn wf(&self) -> bool {
        match *self {
            LinuxTcp::Connected(c) => queue_wf(c.send) && queue_wf(c.recv),
            LinuxTcp::RemoteClosed(c) => queue_wf(c.send),
            LinuxTcp::LocalClosed(c) => queue_wf(c.send) && queue_wf(c.recv),
            LinuxTcp::Closing(c) => queue_wf(c.send),
            _ => true,
        }
    }

    /// What an answer brings can be counted.
    pub open spec fn counts(&self, answer: Answer) -> bool {
        match *self {
            LinuxTcp::Connected(c) => receipt_counts(c.recv, answer),
            LinuxTcp::LocalClosed(c) => receipt_counts(c.recv, answer),
            _ => true,
        }
    }

    /// A connection to be made.
    pub fn connect(local: SocketAddr, remote: SocketAddr) -> (r: LinuxTcp)
        ensures
            r.wf(),
            r@ == (Tcp::Connecter { state: LinuxTcpConnecterState::Init, local, remote }),
    {
        LinuxTcp::Connecter(
            LinuxTcpConnecter { state: LinuxTcpConnecterState::Init, local, remote },
        )
    }

    /// A connection that was made by the other side at `now`.
    pub fn accept(fd: i32, remote: SocketAddr, now: u64) -> (r: LinuxTcp)
        requires
            now + CONNECT_TIMEOUT <= u64::MAX,
        ensures
            r.wf(),
            r@ == (Tcp::Connectee {
                fd,
                timeout: (now + CONNECT_TIMEOUT) as u64,
                sent: false,
                remote,
            }),
    {
        LinuxTcp::Connectee(
            LinuxTcpConnectee { fd, timeout: now + CONNECT_TIMEOUT, sent: false, remote },
        )
    }

    /// Starts to look after a connection.
    pub fn begin(self) -> (r: (LinuxTcp, Option<Ask>))
        requires
            self.wf(),
        ensures
            r.0.wf(),
            r.0@ == begun(self@).tcp,
            r.1 == begun(self@).next,
            begun(self@).effects.len() == 0,
    {
        let ask = match &self {
            LinuxTcp::Connecter(c) => match c.state {
                LinuxTcpConnecterState::Init => Some(
                    Ask::Open { local: c.local, remote: c.remote },
                ),
                LinuxTcpConnecterState::Connecting1(fd, _) => Some(Ask::Error(fd)),
                LinuxTcpConnecterState::Connecting2(fd, _) => Some(Ask::Error(fd)),
            },
            LinuxTcp::ConnecterLocalClosed(c) => match c.state {
                LinuxTcpConnecterState::Init => {
                    return (LinuxTcp::Closed, None);
                },
                LinuxTcpConnecterState::Connecting1(fd, _) => Some(Ask::Error(fd)),
                LinuxTcpConnecterState::Connecting2(fd, _) => Some(Ask::Error(fd)),
            },
            LinuxTcp::Connectee(c) => Some(Ask::Error(c.fd)),
            LinuxTcp::ConnecteeLocalClosed(c) => Some(Ask::Error(c.fd)),
            LinuxTcp::Connected(c) => Some(Ask::Error(c.fd)),
            LinuxTcp::RemoteClosed(c) => Some(Ask::Error(c.fd)),
            LinuxTcp::LocalClosed(c) => Some(Ask::Error(c.fd)),
            LinuxTcp::Closing(c) => Some(Ask::Error(c.fd)),
            LinuxTcp::Closed => None,
            LinuxTcp::Killed => None,
        };
        (self, ask)
    }

    /// Ends this side of a connection, and starts to look after it.
    pub fn close(self) -> (r: (LinuxTcp, Option<Ask>))
        requires
            self.wf(),
            can_close(self@),
        ensures
            r.0.wf(),
            r.0@ == begun(local_closed(self@)).tcp,
            r.1 == begun(local_closed(self@)).next,
    {
        let closed = match self {
            LinuxTcp::Connecter(c) => LinuxTcp::ConnecterLocalClosed(
                LinuxTcpConnecterLocalClosed { state: c.state, local: c.local, remote: c.remote },
            ),
            LinuxTcp::Connectee(c) => LinuxTcp::ConnecteeLocalClosed(
                LinuxTcpConnecteeLocalClosed {
                    fd: c.fd,
                    timeout: c.timeout,
                    sent: c.sent,
                    remote: c.remote,
                },
            ),
            LinuxTcp::Connected(c) => LinuxTcp::LocalClosed(
                LinuxTcpConnectionLocalClosed {
                    fd: c.fd,
                    send: c.send,
                    recv: c.recv,
                    remote_closed: c.remote_closed,
                    local_closed_given: false,
                    remote: c.remote,
                },
            ),
            LinuxTcp::RemoteClosed(c) => LinuxTcp::Closing(
                LinuxTcpClosing {
                    fd: c.fd,
                    send: c.send,
                    local_closed_given: false,
                    remote: c.remote,
                },
            ),
            other => other,
        };
        closed.begin()
    }

    /// A connection on a socket whose handshake is done.
    fn connected(fd: i32, is_local_closed: bool, remote: SocketAddr) -> (r: (LinuxTcp, Option<Ask>))
        ensures
            r.0.wf(),
            r.0@ == connected(fd, is_local_closed, remote).tcp,
            r.1 == connected(fd, is_local_closed, remote).next,
            connected(fd, is_local_closed, remote).effects.len() == 0,
    {
        let send: CircularBuffer<u8> = CircularBuffer::new(BUF);
        let recv: CircularBuffer<u8> = CircularBuffer::new(BUF);
        if is_local_closed {
            LinuxTcp::LocalClosed(
                LinuxTcpConnectionLocalClosed {
                    fd,
                    send,
                    recv,
                    remote_closed: false,
                    local_closed_given: false,
                    remote,
                },
            ).begin()
        } else {
            LinuxTcp::Connected(
                LinuxTcpConnection { fd, send, recv, remote_closed: false, remote },
            ).begin()
        }
    }

    /// Goes on with the handshake of the side that was connected to.
    fn accept_on(
        c: LinuxTcpConnectee,
        is_local_closed: bool,
        ask: Ask,
        answer: &Answer,
        effects: &mut Vec<Effect>,
    ) -> (r: (LinuxTcp, Option<Ask>))
        requires
            accept_asks(c.fd, c.timeout, c.sent, ask, *answer),
        ensures
            ({
                let tcp = if is_local_closed {
                    Tcp::ConnecteeLocalClosed {
                        fd: c.fd,
                        timeout: c.timeout,
                        sent: c.sent,
                        remote: c.remote,
                    }
                } else {
                    Tcp::Connectee {
                        fd: c.fd,
                        timeout: c.timeout,
                        sent: c.sent,
                        remote: c.remote,
                    }
                };
                let step = accept_step(
                    tcp,
                    c.fd,
                    c.timeout,
                    c.sent,
                    is_local_closed,
                    c.remote,
                    *answer,
                );
                &&& r.0.wf()
                &&& r.0@ == step.tcp
                &&& r.1 == step.next
                &&& final(effects)@ == old(effects)@ + step.effects
            }),
    {
        let fd: i32 = c.fd;
        let mut timeout: u64 = c.timeout;
        let mut sent: bool = c.sent;
        let next = match answer {
            Answer::Error(error) => if *error != 0 {
                effects.push(Effect::Close(fd));
                assert(effects@ =~= old(effects)@ + seq![Effect::Close(fd)]);
                return (LinuxTcp::Killed, None);
            } else if sent {
                Some(Ask::PeekMagic(fd))
            } else {
                Some(Ask::SendMagic(fd, INCOMING_MAGIC))
            },
            Answer::MagicSent => {
                sent = true;
                Some(Ask::PeekMagic(fd))
            },
            Answer::Magic(_) => Some(Ask::TakeMagic(fd)),
            Answer::Taken => {
                let r = LinuxTcp::connected(fd, is_local_closed, c.remote);
                assert(effects@ =~= old(effects)@ + connected(
                    fd,
                    is_local_closed,
                    c.remote,
                ).effects);
                return r;
            },
            Answer::Pending { now } => {
                if timeout < *now {
                    timeout = timeout + CONNECT_TIMEOUT;
                }
                None
            },
            _ => {
                effects.push(Effect::Close(fd));
                assert(effects@ =~= old(effects)@ + seq![Effect::Close(fd)]);
                return (LinuxTcp::Killed, None);
            },
        };
        assert(effects@ =~= old(effects)@ + Seq::<Effect>::empty());
        if is_local_closed {
            (
                LinuxTcp::ConnecteeLocalClosed(
                    LinuxTcpConnecteeLocalClosed { fd, timeout, sent, remote: c.remote },
                ),
                next,
            )
        } else {
            (
                LinuxTcp::Connectee(LinuxTcpConnectee { fd, timeout, sent, remote: c.remote }),
                next,
            )
        }
    }
}

impl LinuxTcp {
    /// Once everything has been sent and received that could be.
    fn settle(self) -> (r: (LinuxTcp, Option<Ask>))
        requires
            self.wf(),
            is_link(self@),
        ensures
            r.0.wf(),
            r.0@ == settled(self@).tcp,
            r.1 == settled(self@).next,
            settled(self@).effects.len() == 0,
    {
        match self {
            LinuxTcp::Connected(c) => if !c.remote_closed || c.recv.read_available() > 0 {
                (LinuxTcp::Connected(c), None)
            } else {
                LinuxTcp::RemoteClosed(
                    LinuxTcpConnectionRemoteClosed { fd: c.fd, send: c.send, remote: c.remote },
                ).begin()
            },
            LinuxTcp::LocalClosed(c) => if !c.remote_closed || c.recv.read_available() > 0 {
                (LinuxTcp::LocalClosed(c), None)
            } else {
                LinuxTcp::Closing(
                    LinuxTcpClosing {
                        fd: c.fd,
                        send: c.send,
                        local_closed_given: c.local_closed_given,
                        remote: c.remote,
                    },
                ).begin()
            },
            LinuxTcp::Closing(c) => {
                let next = if c.local_closed_given {
                    Some(Ask::Unsent(c.fd))
                } else {
                    None
                };
                (LinuxTcp::Closing(c), next)
            },
            other => (other, None),
        }
    }

    /// Once everything has been received that could be.
    fn has_received(self) -> (r: (LinuxTcp, Option<Ask>))
        requires
            self.wf(),
            is_link(self@),
        ensures
            r.0.wf(),
            r.0@ == after_receiving(self@).tcp,
            r.1 == after_receiving(self@).next,
            after_receiving(self@).effects.len() == 0,
    {
        match self {
            LinuxTcp::LocalClosed(c) => if !c.local_closed_given && c.send.read_available() == 0 {
                let fd: i32 = c.fd;
                (LinuxTcp::LocalClosed(c), Some(Ask::Shutdown(fd)))
            } else {
                LinuxTcp::LocalClosed(c).settle()
            },
            LinuxTcp::Closing(c) => if !c.local_closed_given && c.send.read_available() == 0 {
                let fd: i32 = c.fd;
                (LinuxTcp::Closing(c), Some(Ask::Shutdown(fd)))
            } else {
                LinuxTcp::Closing(c).settle()
            },
            other => other.settle(),
        }
    }

    /// Once everything has been sent that could be.
    fn has_sent(self) -> (r: (LinuxTcp, Option<Ask>))
        requires
            self.wf(),
            is_link(self@),
        ensures
            r.0.wf(),
            r.0@ == after_sending(self@).tcp,
            r.1 == after_sending(self@).next,
            after_sending(self@).effects.len() == 0,
    {
        match self {
            LinuxTcp::Connected(c) => if c.remote_closed {
                LinuxTcp::Connected(c).has_received()
            } else {
                let fd: i32 = c.fd;
                (LinuxTcp::Connected(c), Some(Ask::ReceiveError(fd)))
            },
            LinuxTcp::LocalClosed(c) => if c.remote_closed {
                LinuxTcp::LocalClosed(c).has_received()
            } else {
                let fd: i32 = c.fd;
                (LinuxTcp::LocalClosed(c), Some(Ask::ReceiveError(fd)))
            },
            other => other.has_received(),
        }
    }

    /// Takes in what a try to send met with.
    fn take_sent(self, run: Sending, sent: Sent) -> (r: (LinuxTcp, SendStep))
        requires
            self.wf(),
            is_link(self@),
            link_asks(self@, Ask::Send(link_fd(self@), run), Answer::Sent(sent)),
        ensures
            r.0.wf(),
            r.0@ == with_send(self@, left(to_send(self@), sent)),
            r.1 == send_step(run, sent),
    {
        match self {
            LinuxTcp::Connected(c) => {
                let mut c = c;
                let step = c.send.read_to_fd(run, sent);
                (LinuxTcp::Connected(c), step)
            },
            LinuxTcp::RemoteClosed(c) => {
                let mut c = c;
                let step = c.send.read_to_fd(run, sent);
                (LinuxTcp::RemoteClosed(c), step)
            },
            LinuxTcp::LocalClosed(c) => {
                let mut c = c;
                let step = c.send.read_to_fd(run, sent);
                (LinuxTcp::LocalClosed(c), step)
            },
            LinuxTcp::Closing(c) => {
                let mut c = c;
                let step = c.send.read_to_fd(run, sent);
                (LinuxTcp::Closing(c), step)
            },
            other => (other, SendStep::More(run)),
        }
    }

    /// Takes in what a try to receive met with, and that the other side has
    /// ended if it has.
    fn take_received(self, run: Receiving, received: Received) -> (r: (LinuxTcp, ReceiveStep))
        requires
            self.wf(),
            is_link(self@),
            self.counts(Answer::Received(received)),
            link_asks(self@, Ask::Receive(link_fd(self@), run), Answer::Received(received)),
        ensures
            r.0.wf(),
            r.1 == receive_step(run, received),
            r.0@ == with_recv(
                self@,
                gained(to_read(self@), received),
                r.1 matches ReceiveStep::Done(CircularBufferWriteFromFd::Read(_, closed)) && closed,
            ),
    {
        match self {
            LinuxTcp::Connected(c) => {
                let mut c = c;
                let step = c.recv.write_from_fd(run, received);
                c.remote_closed = match step {
                    ReceiveStep::Done(CircularBufferWriteFromFd::Read(_, closed)) => closed,
                    _ => false,
                };
                (LinuxTcp::Connected(c), step)
            },
            LinuxTcp::LocalClosed(c) => {
                let mut c = c;
                let step = c.recv.write_from_fd(run, received);
                c.remote_closed = match step {
                    ReceiveStep::Done(CircularBufferWriteFromFd::Read(_, closed)) => closed,
                    _ => false,
                };
                (LinuxTcp::LocalClosed(c), step)
            },
            other => (other, ReceiveStep::More(run)),
        }
    }

    /// The socket of a connection whose handshake is done.
    fn fd(&self) -> (r: i32)
        ensures
            r == link_fd(self@),
    {
        match self {
            LinuxTcp::Connected(c) => c.fd,
            LinuxTcp::RemoteClosed(c) => c.fd,
            LinuxTcp::LocalClosed(c) => c.fd,
            LinuxTcp::Closing(c) => c.fd,
            _ => 0,
        }
    }

    /// Goes on with a connection whose handshake is done.
    fn link_on(self, ask: Ask, answer: Answer, effects: &mut Vec<Effect>) -> (r: (
        LinuxTcp,
        Option<Ask>,
    ))
        requires
            self.wf(),
            is_link(self@),
            link_asks(self@, ask, answer),
            self.counts(answer),
        ensures
            r.0.wf(),
            r.0@ == link_step(self@, ask, answer).tcp,
            r.1 == link_step(self@, ask, answer).next,
            final(effects)@ == old(effects)@ + link_step(self@, ask, answer).effects,
    {
        let ghost step = link_step(self@, ask, answer);
        let fd: i32 = self.fd();
        let lost = match (ask, answer) {
            (Ask::Error(_), Answer::Error(error)) => {
                if error != 0 {
                    true
                } else {
                    let given = match &self {
                        LinuxTcp::LocalClosed(c) => c.local_closed_given,
                        _ => false,
                    };
                    assert(effects@ =~= old(effects)@ + step.effects);
                    if given {
                        return self.has_sent();
                    }
                    return (self, Some(Ask::SendError(fd)));
                }
            },
            (Ask::SendError(_), Answer::Error(error)) => {
                assert(effects@ =~= old(effects)@ + step.effects);
                return (self, Some(Ask::Send(fd, Sending { error, written: 0 })));
            },
            (Ask::Send(_, run), Answer::Sent(sent)) => {
                let (after, sending) = self.take_sent(run, sent);
                match sending {
                    SendStep::More(run) => {
                        assert(effects@ =~= old(effects)@ + step.effects);
                        return (after, Some(Ask::Send(fd, run)));
                    },
                    SendStep::Done(CircularBufferReadToFd::Killed) => true,
                    SendStep::Done(CircularBufferReadToFd::Written(_)) => {
                        let r = after.has_sent();
                        assert(effects@ =~= old(effects)@ + step.effects);
                        return r;
                    },
                }
            },
            (Ask::ReceiveError(_), Answer::Error(error)) => {
                assert(effects@ =~= old(effects)@ + step.effects);
                return (self, Some(Ask::Receive(fd, Receiving { error, read: 0 })));
            },
            (Ask::Receive(_, run), Answer::Received(received)) => {
                let (after, receiving) = self.take_received(run, received);
                match receiving {
                    ReceiveStep::More(run) => {
                        assert(effects@ =~= old(effects)@ + step.effects);
                        return (after, Some(Ask::Receive(fd, run)));
                    },
                    ReceiveStep::Done(CircularBufferWriteFromFd::Killed) => true,
                    ReceiveStep::Done(CircularBufferWriteFromFd::Read(_, _)) => {
                        let r = after.has_received();
                        assert(effects@ =~= old(effects)@ + step.effects);
                        return r;
                    },
                }
            },
            (Ask::Shutdown(_), Answer::ShutDown(done)) => {
                if done {
                    let after = match self {
                        LinuxTcp::LocalClosed(c) => {
                            let mut c = c;
                            c.local_closed_given = true;
                            LinuxTcp::LocalClosed(c)
                        },
                        LinuxTcp::Closing(c) => {
                            let mut c = c;
                            c.local_closed_given = true;
                            LinuxTcp::Closing(c)
                        },
                        other => other,
                    };
                    let r = after.settle();
                    assert(effects@ =~= old(effects)@ + step.effects);
                    return r;
                }
                true
            },
            (Ask::Unsent(_), Answer::Unsent { bytes, now }) => {
                if bytes == 0 {
                    effects.push(Effect::Unwatch(fd));
                    effects.push(Effect::Close(fd));
                    assert(effects@ =~= old(effects)@ + step.effects);
                    return (LinuxTcp::Closed, None);
                }
                effects.push(Effect::WakeAt(now + LINGER_DELAY));
                assert(effects@ =~= old(effects)@ + step.effects);
                return (self, None);
            },
            _ => {
                return (self, None);
            },
        };
        if lost {
            effects.push(Effect::Close(fd));
        }
        assert(effects@ =~= old(effects)@ + step.effects);
        (LinuxTcp::Killed, None)
    }

    /// Goes on with a connection after an answer to what it asked.
    pub fn poll(self, ask: Ask, answer: Answer, effects: &mut Vec<Effect>) -> (r: (
        LinuxTcp,
        Option<Ask>,
    ))
        requires
            self.wf(),
            tcp_asks(self@, ask, answer),
            self.counts(answer),
        ensures
            r.0.wf(),
            r.0@ == tcp_step(self@, ask, answer).tcp,
            r.1 == tcp_step(self@, ask, answer).next,
            final(effects)@ == old(effects)@ + tcp_step(self@, ask, answer).effects,
    {
        match self {
            LinuxTcp::Connecter(c) => {
                let (state, next) = connect_on(c.state, ask, &answer, effects);
                let at = LinuxTcp::Connecter(
                    LinuxTcpConnecter { state, local: c.local, remote: c.remote },
                );
                match next {
                    Next::Ask(ask) => (at, Some(ask)),
                    Next::Restart => (at, Some(Ask::Open { local: c.local, remote: c.remote })),
                    Next::Connected(fd) => {
                        assert(effects@ =~= old(effects)@);
                        assert(effects@ =~= old(effects)@ + connected(fd, false, c.remote).effects);
                        LinuxTcp::connected(fd, false, c.remote)
                    },
                    _ => (at, None),
                }
            },
            LinuxTcp::ConnecterLocalClosed(c) => {
                let (state, next) = connect_on(c.state, ask, &answer, effects);
                let at = LinuxTcp::ConnecterLocalClosed(
                    LinuxTcpConnecterLocalClosed { state, local: c.local, remote: c.remote },
                );
                match next {
                    Next::Ask(ask) => (at, Some(ask)),
                    Next::Restart => (LinuxTcp::Closed, None),
                    Next::Connected(fd) => {
                        assert(effects@ =~= old(effects)@);
                        assert(effects@ =~= old(effects)@ + connected(fd, true, c.remote).effects);
                        LinuxTcp::connected(fd, true, c.remote)
                    },
                    _ => (at, None),
                }
            },
            LinuxTcp::Connectee(c) => LinuxTcp::accept_on(c, false, ask, &answer, effects),
            LinuxTcp::ConnecteeLocalClosed(c) => LinuxTcp::accept_on(
                LinuxTcpConnectee {
                    fd: c.fd,
                    timeout: c.timeout,
                    sent: c.sent,
                    remote: c.remote,
                },
                true,
                ask,
                &answer,
                effects,
            ),
            LinuxTcp::Closed => (LinuxTcp::Closed, None),
            LinuxTcp::Killed => (LinuxTcp::Killed, None),
            other => other.link_on(ask, answer, effects),
        }
    }

    /// The bytes that are still to be sent, the oldest first.
    pub fn unsent(&self) -> (r: Vec<u8>)
        requires
            self.wf(),
        ensures
            r@ == to_send(self@),
    {
        match self {
            LinuxTcp::Connected(c) => joined(c.send.read_runs()),
            LinuxTcp::RemoteClosed(c) => joined(c.send.read_runs()),
            LinuxTcp::LocalClosed(c) => joined(c.send.read_runs()),
            LinuxTcp::Closing(c) => joined(c.send.read_runs()),
            _ => {
                let r: Vec<u8> = Vec::new();
                assert(r@ =~= to_send(self@));
                r
            },
        }
    }

    /// How many bytes there is room to receive.
    pub fn room(&self) -> (r: usize)
        requires
            self.wf(),
        ensures
            r == (if self@ is Connected || self@ is LocalClosed {
                BUF - to_read(self@).len()
            } else {
                0
            }),
    {
        match self {
            LinuxTcp::Connected(c) => c.recv.write_available(),
            LinuxTcp::LocalClosed(c) => c.recv.write_available(),
            _ => 0,
        }
    }

    /// Whether `poll` takes that answer to that.
    pub fn takes(&self, ask: &Ask, answer: &Answer) -> (r: bool)
        requires
            self.wf(),
        ensures
            r == (tcp_asks(self@, *ask, *answer) && self.counts(*answer)),
    {
        match self {
            LinuxTcp::Connecter(c) => connect_takes(c.state, ask, answer),
            LinuxTcp::ConnecterLocalClosed(c) => match c.state {
                LinuxTcpConnecterState::Init => false,
                state => connect_takes(state, ask, answer),
            },
            LinuxTcp::Connectee(c) => accept_takes(c.fd, c.timeout, c.sent, ask, answer),
            LinuxTcp::ConnecteeLocalClosed(c) => accept_takes(
                c.fd,
                c.timeout,
                c.sent,
                ask,
                answer,
            ),
            LinuxTcp::Connected(c) => {
                let of = Held {
                    fd: c.fd,
                    unsent: c.send.read_available(),
                    unread: c.recv.read_available(),
                    ever: c.recv.ever_written(),
                    receives: !c.remote_closed,
                    ended: false,
                    lingers: false,
                };
                link_takes(of, ask, answer)
            },
            LinuxTcp::RemoteClosed(c) => {
                let of = Held {
                    fd: c.fd,
                    unsent: c.send.read_available(),
                    unread: 0,
                    ever: 0,
                    receives: false,
                    ended: false,
                    lingers: false,
                };
                link_takes(of, ask, answer)
            },
            LinuxTcp::LocalClosed(c) => {
                let of = Held {
                    fd: c.fd,
                    unsent: c.send.read_available(),
                    unread: c.recv.read_available(),
                    ever: c.recv.ever_written(),
                    receives: !c.remote_closed,
                    ended: true,
                    lingers: false,
                };
                link_takes(of, ask, answer)
            },
            LinuxTcp::Closing(c) => {
                let of = Held {
                    fd: c.fd,
                    unsent: c.send.read_available(),
                    unread: 0,
                    ever: 0,
                    receives: false,
                    ended: true,
                    lingers: c.local_closed_given,
                };
                link_takes(of, ask, answer)
            },
            LinuxTcp::Closed => false,
            LinuxTcp::Killed => false,
        }
    }

    /// Whether the handshake is still going on.
    pub fn connecting(&self) -> (r: bool)
        ensures
            r == (self@ is Connecter || self@ is Connectee || self@ is ConnecterLocalClosed
                || self@ is ConnecteeLocalClosed),
    {
        match self {
            LinuxTcp::Connecter(_) => true,
            LinuxTcp::Connectee(_) => true,
            LinuxTcp::ConnecterLocalClosed(_) => true,
            LinuxTcp::ConnecteeLocalClosed(_) => true,
            _ => false,
        }
    }

    /// Whether bytes may come out of the connection.
    pub fn recvable(&self) -> (r: bool)
        ensures
            r == (self@ is Connected || self@ is LocalClosed),
    {
        match self {
            LinuxTcp::Connected(_) => true,
            LinuxTcp::LocalClosed(_) => true,
            _ => false,
        }
    }

    /// Whether a byte has come that can be read.
    pub fn recv_avail(&self) -> (r: bool)
        requires
            self.wf(),
        ensures
            r == (to_read(self@).len() > 0),
    {
        match self {
            LinuxTcp::Connected(c) => c.recv.read_available() > 0,
            LinuxTcp::LocalClosed(c) => c.recv.read_available() > 0,
            _ => false,
        }
    }

    /// Reads a byte.
    pub fn recv(self) -> (r: (LinuxTcp, u8))
        requires
            self.wf(),
            to_read(self@).len() > 0,
        ensures
            r.0.wf(),
            r.1 == to_read(self@)[0],
            match self@ {
                Tcp::Connected { remote_closed, .. } => r.0@ == with_recv(
                    self@,
                    to_read(self@).skip(1),
                    remote_closed,
                ),
                Tcp::LocalClosed { remote_closed, .. } => r.0@ == with_recv(
                    self@,
                    to_read(self@).skip(1),
                    remote_closed,
                ),
                _ => false,
            },
    {
        let mut byte: Vec<u8> = vec![0];
        match self {
            LinuxTcp::Connected(c) => {
                let mut c = c;
                let _ = c.recv.read_some(&mut byte);
                (LinuxTcp::Connected(c), byte[0])
            },
            LinuxTcp::LocalClosed(c) => {
                let mut c = c;
                let _ = c.recv.read_some(&mut byte);
                (LinuxTcp::LocalClosed(c), byte[0])
            },
            other => (other, 0),
        }
    }

    /// Whether bytes may be put into the connection.
    pub fn sendable(&self) -> (r: bool)
        ensures
            r == (self@ is Connected || self@ is RemoteClosed),
    {
        match self {
            LinuxTcp::Connected(_) => true,
            LinuxTcp::RemoteClosed(_) => true,
            _ => false,
        }
    }

    /// Whether there is room to send a byte.
    pub fn send_avail(&self) -> (r: bool)
        requires
            self.wf(),
        ensures
            r == ((self@ is Connected || self@ is RemoteClosed) && to_send(self@).len() < BUF),
    {
        match self {
            LinuxTcp::Connected(c) => c.send.write_available() > 0,
            LinuxTcp::RemoteClosed(c) => c.send.write_available() > 0,
            _ => false,
        }
    }

    /// How many bytes were ever sent.
    pub open spec fn ever_sent(&self) -> int {
        match *self {
            LinuxTcp::Connected(c) => c.send.spec_head(),
            LinuxTcp::RemoteClosed(c) => c.send.spec_head(),
            _ => 0,
        }
    }

    /// Sends a byte.
    pub fn send(self, x: u8) -> (r: LinuxTcp)
        requires
            self.wf(),
            self@ is Connected || self@ is RemoteClosed,
            to_send(self@).len() < BUF,
            self.ever_sent() < usize::MAX,
        ensures
            r.wf(),
            r@ == with_send(self@, to_send(self@).push(x)),
    {
        let byte: Vec<u8> = vec![x];
        assert(to_send(self@) + byte@ =~= to_send(self@).push(x));
        self.send_all(byte)
    }

    /// Sends bytes.
    pub fn send_all(self, bytes: Vec<u8>) -> (r: LinuxTcp)
        requires
            self.wf(),
            self@ is Connected || self@ is RemoteClosed,
            to_send(self@).len() + bytes@.len() <= BUF,
            self.ever_sent() + bytes@.len() <= usize::MAX,
        ensures
            r.wf(),
            r@ == with_send(self@, to_send(self@) + bytes@),
    {
        match self {
            LinuxTcp::Connected(c) => {
                let mut c = c;
                c.send.write(bytes.as_slice());
                LinuxTcp::Connected(c)
            },
            LinuxTcp::RemoteClosed(c) => {
                let mut c = c;
                c.send.write(bytes.as_slice());
                LinuxTcp::RemoteClosed(c)
            },
            other => other,
        }
    }

    /// Whether this side can be ended.
    pub fn closable(&self) -> (r: bool)
        ensures
            r == can_close(self@),
    {
        match self {
            LinuxTcp::Connecter(_) => true,
            LinuxTcp::Connectee(_) => true,
            LinuxTcp::Connected(_) => true,
            LinuxTcp::RemoteClosed(_) => true,
            _ => false,
        }
    }

    /// Whether both sides have ended and everything has left.
    pub fn closed(&self) -> (r: bool)
        ensures
            r == (self@ is Closed),
    {
        match self {
            LinuxTcp::Closed => true,
            _ => false,
        }
    }

    /// Whether the connection is not lost.
    pub fn valid(&self) -> (r: bool)
        ensures
            r == !(self@ is Killed),
    {
        match self {
            LinuxTcp::Killed => false,
            _ => true,
        }
    }
}

/// The other side is let know that nothing more will be sent only once
/// everything has been sent.
pub open spec fn orderly(tcp: Tcp) -> bool {
    has_given(tcp) ==> to_send(tcp).len() == 0
}

/// The descriptors that a connection holds.
pub open spec fn holds(tcp: Tcp) -> Set<i32> {
    match tcp {
        Tcp::Connecter { state, .. } => connecter_holds(state),
        Tcp::ConnecterLocalClosed { state, .. } => connecter_holds(state),
        Tcp::Connectee { fd, .. } => set![fd],
        Tcp::ConnecteeLocalClosed { fd, .. } => set![fd],
        Tcp::Closed => Set::empty(),
        Tcp::Killed => Set::empty(),
        _ => set![link_fd(tcp)],
    }
}

/// A connection stays in order whatever comes back, and one that ends well has
/// sent everything: it ends either before its handshake is done or with nothing
/// left to send.
pub proof fn law_ends_with_everything_sent(tcp: Tcp, ask: Ask, answer: Answer)
    requires
        tcp_asks(tcp, ask, answer),
        orderly(tcp),
    ensures
        orderly(tcp_step(tcp, ask, answer).tcp),
        tcp_step(tcp, ask, answer).tcp is Closed ==> to_send(tcp).len() == 0,
{
}

/// Whatever comes back, a connection that is not lost keeps what is to be sent,
/// but for what has been sent, and what is to be read, with what has been
/// received behind it.
pub proof fn law_no_byte_is_lost(tcp: Tcp, ask: Ask, answer: Answer)
    requires
        is_link(tcp),
        orderly(tcp),
        tcp_asks(tcp, ask, answer),
    ensures
        ({
            let after = tcp_step(tcp, ask, answer).tcp;
            !(after is Killed) ==> {
                &&& to_send(after) == (match (ask, answer) {
                    (Ask::Send(_, _), Answer::Sent(sent)) => left(to_send(tcp), sent),
                    _ => to_send(tcp),
                })
                &&& to_read(after) == (match (ask, answer) {
                    (Ask::Receive(_, _), Answer::Received(received)) => gained(
                        to_read(tcp),
                        received,
                    ),
                    _ => to_read(tcp),
                })
            }
        }),
{
    let after = tcp_step(tcp, ask, answer).tcp;
    assert(to_read(tcp).len() == 0 ==> to_read(tcp) =~= Seq::<u8>::empty());
    assert(to_send(tcp).len() == 0 ==> to_send(tcp) =~= Seq::<u8>::empty());
    if let (Ask::Receive(_, run), Answer::Received(received)) = (ask, answer) {
        let recv = gained(to_read(tcp), received);
        assert(recv.len() == 0 ==> recv =~= Seq::<u8>::empty());
    }
}

/// No descriptor is lost, and none is closed that is still held: each that a
/// connection held or has opened is afterwards either held or closed.
pub proof fn law_no_descriptor_is_lost(tcp: Tcp, ask: Ask, answer: Answer)
    requires
        tcp_asks(tcp, ask, answer),
    ensures
        ({
            let step = tcp_step(tcp, ask, answer);
            let opened: Set<i32> = match answer {
                Answer::Opened { fd, .. } => set![fd],
                _ => Set::empty(),
            };
            &&& holds(tcp).union(opened) =~= holds(step.tcp).union(closes(step.effects))
            &&& holds(step.tcp).disjoint(closes(step.effects))
        }),
{
    let step = tcp_step(tcp, ask, answer);
    assert(closes(Seq::empty()) =~= Set::<i32>::empty());
    match tcp {
        Tcp::Connecter { state, .. } => {
            law_connecter_loses_no_descriptor(state, ask, answer);
        },
        Tcp::ConnecterLocalClosed { state, .. } => {
            law_connecter_loses_no_descriptor(state, ask, answer);
        },
        Tcp::Connectee { fd, .. } => {
            lemma_closes_one(fd);
        },
        Tcp::ConnecteeLocalClosed { fd, .. } => {
            lemma_closes_one(fd);
        },
        _ => {
            let fd = link_fd(tcp);
            lemma_closes_one(fd);
            lemma_dropped_closes(fd);
            if let (Ask::Unsent(_), Answer::Unsent { bytes, now }) = (ask, answer) {
                let wake = seq![Effect::WakeAt((now + LINGER_DELAY) as u64)];
                assert(closes(wake) =~= Set::<i32>::empty());
            }
        },
    }
}

proof fn lemma_closes_one(fd: i32)
    ensures
        closes(seq![Effect::Close(fd)]) == set![fd],
{
    assert(seq![Effect::Close(fd)][0] == Effect::Close(fd));
    assert(closes(seq![Effect::Close(fd)]) =~= set![fd]);
}

/// A connection that has ended or is lost stays so: nothing is asked of it.
pub proof fn law_the_end_is_final(tcp: Tcp, ask: Ask, answer: Answer)
    requires
        tcp is Closed || tcp is Killed,
    ensures
        begun(tcp) == waits(tcp),
        !tcp_asks(tcp, ask, answer),
        !can_close(tcp),
{
}

/// The two sides of a handshake fit together: each takes as the first number
/// only what the other sends, and the two numbers differ, so that two sides that
/// both connect, or both were connected to, never take each other for a match.
pub proof fn law_handshakes_fit(
    state: LinuxTcpConnecterState,
    connecter_fd: i32,
    connectee_fd: i32,
    timeout: u64,
    until: u64,
    magic: u64,
)
    requires
        state == LinuxTcpConnecterState::Connecting2(connecter_fd, timeout),
    ensures
        connect_asks(state, Ask::PeekMagic(connecter_fd), Answer::Magic(magic)) <==> magic
            == INCOMING_MAGIC,
        accept_asks(connectee_fd, until, true, Ask::PeekMagic(connectee_fd), Answer::Magic(magic))
            <==> magic == OUTGOING_MAGIC,
        connect_asks(
            LinuxTcpConnecterState::Connecting1(connecter_fd, timeout),
            Ask::SendMagic(connecter_fd, magic),
            Answer::MagicSent,
        ) <==> magic == OUTGOING_MAGIC,
        accept_asks(
            connectee_fd,
            until,
            false,
            Ask::SendMagic(connectee_fd, magic),
            Answer::MagicSent,
        ) <==> magic == INCOMING_MAGIC,
        INCOMING_MAGIC != OUTGOING_MAGIC,
{
}

/// Everything that a connection asks is something that it may be asking: an
/// answer of the right form to it can always be taken in.
pub open spec fn may_ask(tcp: Tcp, ask: Ask) -> bool {
    exists|answer: Answer| #[trigger] tcp_asks(tcp, ask, answer)
}

/// What a connection asks after an answer, and what it asks to start with, it
/// may be asking.
pub proof fn law_asks_can_be_answered(tcp: Tcp, ask: Ask, answer: Answer)
    requires
        tcp_asks(tcp, ask, answer),
    ensures
        tcp_step(tcp, ask, answer).next matches Some(next) ==> may_ask(
            tcp_step(tcp, ask, answer).tcp,
            next,
        ),
{
    let step = tcp_step(tcp, ask, answer);
    if let Some(next) = step.next {
        let reply = match next {
            Ask::Open { .. } => Answer::Opened { fd: 0, in_progress: false, error: 0, now: 0 },
            Ask::Error(_) => Answer::Error(0),
            Ask::Writable(_) => Answer::Writable { ready: false, now: 0 },
            Ask::SendMagic(_, _) => Answer::Gone,
            Ask::PeekMagic(_) => Answer::Gone,
            Ask::TakeMagic(_) => Answer::Taken,
            Ask::SendError(_) => Answer::Error(0),
            Ask::Send(_, _) => Answer::Sent(Sent::Failed),
            Ask::ReceiveError(_) => Answer::Error(0),
            Ask::Receive(_, _) => Answer::Received(Received::Failed),
            Ask::Shutdown(_) => Answer::ShutDown(true),
            Ask::Unsent(_) => Answer::Unsent { bytes: 0, now: 0 },
        };
        assert(tcp_asks(step.tcp, next, reply));
    }
}

/// What was sent is no longer to be sent, and nothing else is; what was received is
/// to be read behind what was there, and nothing else is.
pub proof fn law_bytes_leave_and_come_in_order(
    send: Seq<u8>,
    n: usize,
    recv: Seq<u8>,
    items: Vec<u8>,
)
    requires
        n <= send.len(),
    ensures
        send.take(n as int) + left(send, Sent::Items(n)) == send,
        left(send, Sent::WouldBlock) == send,
        left(send, Sent::Failed) == send,
        gained(recv, Received::Items(items)) == recv + items@,
        gained(recv, Received::WouldBlock) == recv,
        gained(recv, Received::Closed) == recv,
{
    assert(send.take(n as int) + left(send, Sent::Items(n)) =~= send);
}

/// A connection is lost only for a reason: its socket met with an error, or the
/// other side is gone, or something could not be done to the socket.
pub proof fn law_lost_only_for_a_reason(tcp: Tcp, ask: Ask, answer: Answer)
    requires
        tcp_asks(tcp, ask, answer),
        tcp_step(tcp, ask, answer).tcp is Killed,
    ensures
        ask is Error ==> (answer matches Answer::Error(error) && error != 0),
        ask is Shutdown ==> answer == Answer::ShutDown(false),
        ask is SendMagic || ask is PeekMagic ==> answer == Answer::Gone,
        ask is Error || ask is Shutdown || ask is SendMagic || ask is PeekMagic || ask is Send
            || ask is Receive,
        !(tcp is Connecter) && !(tcp is ConnecterLocalClosed),
        is_link(tcp) || tcp is Connectee || tcp is ConnecteeLocalClosed,
{
}

/// A connection that has read bytes which nobody took yet keeps them until they are
/// taken, even if the other side has ended; only then does it stop listening.
pub proof fn law_listens_until_all_is_read(tcp: Tcp, ask: Ask, answer: Answer)
    requires
        tcp is Connected || tcp is LocalClosed,
        tcp_asks(tcp, ask, answer),
        !(tcp_step(tcp, ask, answer).tcp is Killed),
    ensures
        ({
            let after = tcp_step(tcp, ask, answer).tcp;
            &&& to_read(tcp).len() > 0 ==> (tcp is Connected ==> after is Connected) && (tcp
                is LocalClosed ==> after is LocalClosed)
            &&& tcp is Connected ==> after is Connected || after is RemoteClosed
            &&& tcp is LocalClosed ==> after is LocalClosed || after is Closing
            &&& after is RemoteClosed || after is Closing ==> {
                ||| !may_receive(tcp)
                ||| ask is Receive && (answer matches Answer::Received(received) && !(received
                    is Items))
            }
        }),
{
}

/// A connection ends well only when both sides have ended, the other side was let
/// know, and nothing is left that has not left for it; or before it ever had a
/// socket that was connected.
pub proof fn law_ends_well_only_when_all_has_left(tcp: Tcp, ask: Ask, answer: Answer)
    requires
        tcp_asks(tcp, ask, answer),
        tcp_step(tcp, ask, answer).tcp is Closed,
    ensures
        is_link(tcp) ==> tcp is Closing && has_given(tcp) && (answer matches Answer::Unsent {
            bytes,
            ..
        } && bytes == 0),
        !is_link(tcp) ==> tcp is ConnecterLocalClosed,
{
}

/// The other side is let know that nothing more will be sent only once this side has
/// ended and everything was sent, and only once.
pub proof fn law_lets_know_after_everything_was_sent(tcp: Tcp, ask: Ask, answer: Answer)
    requires
        tcp_asks(tcp, ask, answer),
    ensures
        ({
            let step = tcp_step(tcp, ask, answer);
            &&& step.next matches Some(Ask::Shutdown(_)) ==> (step.tcp is LocalClosed || step.tcp
                is Closing) && to_send(step.tcp).len() == 0 && !has_given(step.tcp)
            &&& has_given(step.tcp) && !has_given(tcp) ==> answer == Answer::ShutDown(true)
            &&& has_given(tcp) && (step.tcp is LocalClosed || step.tcp is Closing) ==> has_given(
                step.tcp,
            )
        }),
{
}

/// Ending this side keeps what is to be sent, what is to be read, the socket and the
/// other side.
pub proof fn law_ending_this_side_keeps_all(tcp: Tcp)
    requires
        can_close(tcp),
    ensures
        ({
            let after = local_closed(tcp);
            &&& to_send(after) == to_send(tcp)
            &&& to_read(after) == to_read(tcp)
            &&& holds(after) == holds(tcp)
            &&& !has_given(after)
            &&& !can_close(after)
            &&& is_link(tcp) == is_link(after)
            &&& is_link(tcp) ==> link_fd(tcp) == link_fd(after)
            &&& may_receive(tcp) == may_receive(after)
        }),
{
}

/// A socket is given a minute to be connected before another is tried; one that
/// could not even be opened is tried again after a tenth of a millisecond; and what
/// is opened is always opened from this process to the other.
pub proof fn law_how_long_is_waited(
    local: SocketAddr,
    remote: SocketAddr,
    fd: i32,
    in_progress: bool,
    error: i32,
    now: u64,
    later: u64,
)
    requires
        now + 60_000_000_000 <= u64::MAX,
    ensures
        ({
            let start = Tcp::Connecter { state: LinuxTcpConnecterState::Init, local, remote };
            let opened = tcp_step(
                start,
                Ask::Open { local, remote },
                Answer::Opened { fd, in_progress, error, now },
            );
            let waited = tcp_step(
                opened.tcp,
                Ask::Writable(fd),
                Answer::Writable { ready: false, now: later },
            );
            &&& begun(start).next == Some(Ask::Open { local, remote })
            &&& in_progress && error == 0 ==> holds(opened.tcp) == set![fd] && opened.next
                == Some(Ask::Error(fd)) && (waited.next is Some <==> later > now + 60_000_000_000)
                && (waited.next is Some ==> waited.next == Some(Ask::Open { local, remote })
                && waited.effects.contains(Effect::Close(fd)))
            &&& !(in_progress && error == 0) ==> opened.next is None && opened.effects.contains(
                Effect::Close(fd),
            ) && opened.effects.contains(Effect::WakeAt((now + 100_000) as u64)) && opened.tcp
                == start
        }),
{
    let start = Tcp::Connecter { state: LinuxTcpConnecterState::Init, local, remote };
    let opened = tcp_step(
        start,
        Ask::Open { local, remote },
        Answer::Opened { fd, in_progress, error, now },
    );
    let waited = tcp_step(
        opened.tcp,
        Ask::Writable(fd),
        Answer::Writable { ready: false, now: later },
    );
    if in_progress && error == 0 {
        if later > now + 60_000_000_000 {
            assert(waited.effects[1] == Effect::Close(fd));
        }
    } else {
        assert(opened.effects[1] == Effect::Close(fd));
        assert(opened.effects[2] == Effect::WakeAt((now + 100_000) as u64));
    }
}

/// Once a handshake is done, the connection goes on with the same socket, to the same
/// process, with nothing sent or received yet; and if this side has ended meanwhile,
/// it has.
pub proof fn law_a_handshake_gives_a_connection(tcp: Tcp, ask: Ask)
    requires
        tcp_asks(tcp, ask, Answer::Taken),
        !is_link(tcp),
    ensures
        ({
            let after = tcp_step(tcp, ask, Answer::Taken).tcp;
            &&& holds(after) == holds(tcp)
            &&& to_send(after).len() == 0
            &&& to_read(after).len() == 0
            &&& may_receive(after)
            &&& tcp is Connecter || tcp is Connectee <==> after is Connected
            &&& tcp is ConnecterLocalClosed || tcp is ConnecteeLocalClosed <==> after is LocalClosed
        }),
{
}

/// A connection goes on until there is nothing left that it could do: it sends and
/// receives each time it is looked after; once this side has ended and everything was
/// sent, the other side is let know; once the other side has ended and everything was
/// read, it stops listening; and once both have, it looks until everything has left.
pub proof fn law_nothing_is_left_undone(tcp: Tcp, ask: Ask, answer: Answer)
    requires
        is_link(tcp),
        tcp_asks(tcp, ask, answer),
    ensures
        begun(tcp).next == Some(Ask::Error(link_fd(tcp))),
        begun(tcp).tcp == tcp,
        ({
            let step = tcp_step(tcp, ask, answer);
            &&& ask is Error && answer != Answer::Error(0) ==> step.tcp is Killed
            &&& ask is Error && answer == Answer::Error(0) ==> {
                ||| step.next == Some(Ask::SendError(link_fd(tcp)))
                ||| tcp is LocalClosed && has_given(tcp)
            }
            &&& ask is SendError ==> (step.next matches Some(Ask::Send(_, run)) && run.written == 0)
            &&& ask is ReceiveError ==> (step.next matches Some(Ask::Receive(_, run)) && run.read
                == 0)
            &&& ask is Send && is_link(step.tcp) && may_receive(step.tcp) ==> {
                ||| step.next == Some(Ask::ReceiveError(link_fd(tcp)))
                ||| step.next matches Some(Ask::Send(_, _))
            }
            &&& answer == Answer::Received(Received::Closed) && is_link(step.tcp)
                ==> !may_receive(step.tcp)
            &&& answer == Answer::Received(Received::WouldBlock) && is_link(step.tcp)
                ==> may_receive(step.tcp)
            &&& step.next is None && is_link(step.tcp) ==> {
                &&& step.tcp is LocalClosed || step.tcp is Closing ==> to_send(step.tcp).len() > 0
                    || has_given(step.tcp)
                &&& step.tcp is Connected || step.tcp is LocalClosed ==> may_receive(step.tcp)
                    || to_read(step.tcp).len() > 0
                &&& step.tcp is Closing && has_given(step.tcp) ==> (answer matches Answer::Unsent {
                    bytes,
                    now,
                } && bytes != 0 && step.effects.contains(Effect::WakeAt((now + LINGER_DELAY) as u64)))
            }
            &&& ask is Unsent && (answer matches Answer::Unsent { bytes, .. } && bytes == 0)
                ==> step.tcp is Closed
        }),
{
    let step = tcp_step(tcp, ask, answer);
    match answer {
        Answer::Unsent { bytes, now } => {
            if bytes != 0 {
                assert(step.effects[0] == Effect::WakeAt((now + LINGER_DELAY) as u64));
            }
        },
        _ => {},
    }
}

/// A socket that was accepted is given up only if it has an error or the other side
/// goes away; otherwise this side sends its number once, waits for the other's, takes
/// it and is connected.
pub proof fn law_an_accepted_socket_is_connected(tcp: Tcp, ask: Ask, answer: Answer)
    requires
        tcp is Connectee || tcp is ConnecteeLocalClosed,
        tcp_asks(tcp, ask, answer),
    ensures
        ({
            let step = tcp_step(tcp, ask, answer);
            let sent = match tcp {
                Tcp::Connectee { sent, .. } => sent,
                Tcp::ConnecteeLocalClosed { sent, .. } => sent,
                _ => false,
            };
            &&& step.tcp is Killed <==> answer == Answer::Gone || (answer matches Answer::Error(error)
                && error != 0)
            &&& answer == Answer::Error(0) ==> {
                ||| sent && (step.next matches Some(Ask::PeekMagic(_)))
                ||| !sent && (step.next matches Some(Ask::SendMagic(_, _)))
            }
            &&& answer == Answer::MagicSent ==> (step.next matches Some(Ask::PeekMagic(_)))
            &&& answer is Magic ==> (step.next matches Some(Ask::TakeMagic(_)))
            &&& answer == Answer::Taken <==> is_link(step.tcp)
            &&& answer is Pending ==> step.next is None && holds(step.tcp) == holds(tcp)
        }),
{
}

} // verus!
