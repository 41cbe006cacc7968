use constellation::channel::circularbuffer::{Received, Sent};
use constellation::channel::epoll::{Epoll, EpollEvent, EpollExecutor, TimeEvent, Timer};
use constellation::channel::inner::{
    ord, ord_by_hash, Ask as ChannelAsk, Inner, Link, Seen, Side,
};
use constellation::channel::io::{go_on, start, IoError, Passed, Transfer};
use constellation::channel::link::hand_over;
use constellation::channel::listener::{Arrived, LinuxTcpListener, Reception};
use constellation::channel::reactor::{
    async_recv, async_recv_available, async_send, async_send_available, recv_available,
    send_available, Accepted, ChannelError, Chore, Opened, Reactor, Role,
};
use constellation::channel::select::{run, select, Selected, Turn};
use constellation::channel::waiters::Waiters;
use constellation::channel::tcp_linux::{
    Answer, Ask, Effect, LinuxTcp, BUF, CONNECT_TIMEOUT, INCOMING_MAGIC, OUTGOING_MAGIC,
};
use constellation::net::{IpAddr, SocketAddr};
use std::collections::VecDeque;

fn addr(n: u32) -> SocketAddr {
    SocketAddr {
        ip: IpAddr::V4(n),
        port: 1000,
    }
}

/// One direction of a connection.
#[derive(Default)]
struct Pipe {
    bytes: VecDeque<u8>,
    ended: bool,
}

/// What a socket does when it is asked.
fn answer(ask: Ask, tcp: &LinuxTcp, out: &mut Pipe, inc: &mut Pipe, now: u64) -> Answer {
    match ask {
        Ask::Open { .. } => Answer::Opened {
            fd: 7,
            in_progress: true,
            error: 0,
            now,
        },
        Ask::Error(_) | Ask::SendError(_) | Ask::ReceiveError(_) => Answer::Error(0),
        Ask::Writable(_) => Answer::Writable { ready: true, now },
        Ask::SendMagic(_, magic) => {
            out.bytes.extend(magic.to_le_bytes());
            Answer::MagicSent
        }
        Ask::PeekMagic(_) => {
            if inc.bytes.len() >= 8 {
                let mut magic = [0u8; 8];
                for (to, from) in magic.iter_mut().zip(&inc.bytes) {
                    *to = *from;
                }
                Answer::Magic(u64::from_le_bytes(magic))
            } else {
                Answer::Pending { now }
            }
        }
        Ask::TakeMagic(_) => {
            inc.bytes.drain(..8);
            Answer::Taken
        }
        Ask::Send(_, _) => {
            let bytes = tcp.unsent();
            if bytes.is_empty() {
                Answer::Sent(Sent::Drained(0))
            } else {
                let n = bytes.len().min(3);
                out.bytes.extend(&bytes[..n]);
                Answer::Sent(Sent::Items(n))
            }
        }
        Ask::Receive(_, _) => {
            if tcp.room() == 0 {
                Answer::Received(Received::Full(inc.ended && inc.bytes.is_empty()))
            } else if inc.bytes.is_empty() {
                Answer::Received(if inc.ended {
                    Received::Closed
                } else {
                    Received::WouldBlock
                })
            } else {
                let n = inc.bytes.len().min(tcp.room()).min(5);
                Answer::Received(Received::Items(inc.bytes.drain(..n).collect()))
            }
        }
        Ask::Shutdown(_) => {
            out.ended = true;
            Answer::ShutDown(true)
        }
        Ask::Unsent(_) => Answer::Unsent { bytes: 0, now },
    }
}

fn follow(
    mut tcp: LinuxTcp,
    mut ask: Option<Ask>,
    out: &mut Pipe,
    inc: &mut Pipe,
    effects: &mut Vec<Effect>,
) -> LinuxTcp {
    while let Some(asked) = ask {
        let answered = answer(asked, &tcp, out, inc, 1000);
        assert!(tcp.takes(&asked, &answered));
        let (next, more) = tcp.poll(asked, answered, effects);
        tcp = next;
        ask = more;
    }
    tcp
}

fn look_after(
    tcp: LinuxTcp,
    out: &mut Pipe,
    inc: &mut Pipe,
    effects: &mut Vec<Effect>,
) -> LinuxTcp {
    let (tcp, ask) = tcp.begin();
    follow(tcp, ask, out, inc, effects)
}

fn connected_pair(
    there: &mut Pipe,
    back: &mut Pipe,
    effects: &mut Vec<Effect>,
) -> (LinuxTcp, LinuxTcp) {
    let mut a = LinuxTcp::connect(addr(1), addr(2));
    let mut b = LinuxTcp::accept(8, addr(1), 1000);
    assert!(a.connecting());
    for _ in 0..3 {
        a = look_after(a, there, back, effects);
        b = look_after(b, back, there, effects);
    }
    assert!(a.sendable() && a.recvable());
    assert!(b.sendable() && b.recvable());
    (a, b)
}

#[test]
fn two_sides_shake_hands_talk_and_part() {
    let mut there = Pipe::default();
    let mut back = Pipe::default();
    let mut effects = Vec::new();
    let (mut a, mut b) = connected_pair(&mut there, &mut back, &mut effects);
    assert!(effects.is_empty());
    for byte in 0..20 {
        assert!(a.send_avail());
        a = a.send(byte);
    }
    let mut got = Vec::new();
    for _ in 0..3 {
        a = look_after(a, &mut there, &mut back, &mut effects);
        b = look_after(b, &mut back, &mut there, &mut effects);
        while b.recv_avail() {
            let (next, byte) = b.recv();
            b = next;
            got.push(byte);
        }
    }
    assert_eq!(got, (0..20).collect::<Vec<u8>>());
    let (next, ask) = a.close();
    a = follow(next, ask, &mut there, &mut back, &mut effects);
    assert!(!a.sendable());
    b = look_after(b, &mut back, &mut there, &mut effects);
    assert!(b.sendable() && !b.recvable());
    let (next, ask) = b.close();
    b = follow(next, ask, &mut back, &mut there, &mut effects);
    a = look_after(a, &mut there, &mut back, &mut effects);
    assert!(a.closed());
    assert!(b.closed());
    assert!(a.valid() && b.valid());
    let closed = effects
        .iter()
        .filter(|effect| matches!(effect, Effect::Close(_)))
        .count();
    assert_eq!(closed, 2);
}

#[test]
fn a_handshake_starts_again_after_an_error() {
    let mut effects = Vec::new();
    let (tcp, ask) = LinuxTcp::connect(addr(1), addr(2)).begin();
    assert_eq!(
        ask,
        Some(Ask::Open {
            local: addr(1),
            remote: addr(2)
        })
    );
    let opened = Answer::Opened {
        fd: 5,
        in_progress: true,
        error: 0,
        now: 10,
    };
    let (tcp, ask) = tcp.poll(ask.unwrap(), opened, &mut effects);
    assert_eq!(ask, Some(Ask::Error(5)));
    let (tcp, ask) = tcp.poll(Ask::Error(5), Answer::Error(111), &mut effects);
    assert_eq!(effects, vec![Effect::Unwatch(5), Effect::Close(5)]);
    assert!(matches!(ask, Some(Ask::Open { .. })));
    let failed = Answer::Opened {
        fd: 6,
        in_progress: false,
        error: 0,
        now: 10,
    };
    effects.clear();
    let (tcp, ask) = tcp.poll(ask.unwrap(), failed, &mut effects);
    assert_eq!(ask, None);
    assert_eq!(
        effects,
        vec![Effect::Unwatch(6), Effect::Close(6), Effect::WakeAt(100_010)]
    );
    assert!(tcp.connecting());
}

#[test]
fn a_wrong_number_is_not_taken() {
    let mut effects = Vec::new();
    let (tcp, ask) = LinuxTcp::accept(4, addr(1), 0).begin();
    assert_eq!(ask, Some(Ask::Error(4)));
    let (tcp, ask) = tcp.poll(Ask::Error(4), Answer::Error(0), &mut effects);
    assert_eq!(ask, Some(Ask::SendMagic(4, INCOMING_MAGIC)));
    let (tcp, ask) = tcp.poll(ask.unwrap(), Answer::MagicSent, &mut effects);
    assert_eq!(ask, Some(Ask::PeekMagic(4)));
    let ask = ask.unwrap();
    assert!(!tcp.takes(&ask, &Answer::Magic(INCOMING_MAGIC)));
    assert!(tcp.takes(&ask, &Answer::Magic(OUTGOING_MAGIC)));
    assert!(tcp.takes(&ask, &Answer::Pending { now: CONNECT_TIMEOUT }));
}

#[test]
fn a_connection_that_is_reset_is_lost() {
    let mut there = Pipe::default();
    let mut back = Pipe::default();
    let mut effects = Vec::new();
    let (a, _) = connected_pair(&mut there, &mut back, &mut effects);
    let (mut a, mut ask) = a.begin();
    while let Some(asked) = ask {
        let answered = match asked {
            Ask::Receive(_, _) => Answer::Received(Received::Failed),
            other => answer(other, &a, &mut there, &mut back, 1000),
        };
        let (next, more) = a.poll(asked, answered, &mut effects);
        a = next;
        ask = more;
    }
    assert!(!a.valid());
    assert!(effects.contains(&Effect::Close(7)));
}

fn link(recvable: bool) -> Link {
    Link {
        connecting: false,
        sendable: true,
        recvable,
        closable: true,
        closed: false,
        valid: true,
        room: BUF,
        inbox: vec![],
        outbox: vec![],
    }
}

#[test]
fn bytes_are_handed_over() {
    let mut there = Pipe::default();
    let mut back = Pipe::default();
    let mut effects = Vec::new();
    let (a, b) = connected_pair(&mut there, &mut back, &mut effects);
    let b = b.send_all(vec![9, 8, 7]);
    let _b = look_after(b, &mut back, &mut there, &mut effects);
    let a = look_after(a, &mut there, &mut back, &mut effects);
    let mut held = link(true);
    held.inbox = vec![1];
    held.outbox = vec![5, 6];
    let (held, a) = hand_over(held, a);
    assert_eq!(held.inbox, vec![1, 9, 8, 7]);
    assert!(held.outbox.is_empty());
    assert_eq!(held.room, BUF - 2);
    assert!(held.sendable && held.recvable && held.closable && held.valid && !held.closed);
    assert_eq!(a.unsent(), vec![5, 6]);
    assert!(!a.recv_avail());
}

fn greater(a: SocketAddr, b: SocketAddr) -> (SocketAddr, SocketAddr) {
    if ord_by_hash(&a, &b) {
        (a, b)
    } else {
        (b, a)
    }
}

#[test]
fn exactly_one_side_connects() {
    for n in 2..50 {
        assert_ne!(ord(&addr(1), &addr(n)), ord(&addr(n), &addr(1)));
        assert_ne!(
            ord_by_hash(&addr(1), &addr(n)),
            ord_by_hash(&addr(n), &addr(1))
        );
    }
    assert!(ord(&addr(2), &addr(1)));
}

/// Values of four bytes.
fn frame(inner: &Inner) -> Option<usize> {
    inner.partial().map(|bytes| 4 - bytes.len())
}

fn settle(inner: Inner) -> Inner {
    let n = frame(&inner);
    let (mut inner, mut ask) = inner.poll(Seen::Start, n);
    while let Some(asked) = ask {
        let n = frame(&inner);
        let (next, more) = inner.poll(Seen::Did(asked), n);
        inner = next;
        ask = more;
    }
    inner
}

#[test]
fn values_go_through_a_channel() {
    let (local, remote) = greater(addr(1), addr(2));
    let inner = settle(Inner::connect(local, remote, Some(link(true))));
    assert!(!inner.connecting());
    assert!(inner.sendable() && inner.recvable());
    assert_eq!(inner.send_avail(), Some(true));
    assert!(send_available(&inner));
    assert!(async_send_available(&inner));
    let (inner, sent) = async_send(inner, vec![1, 2, 3, 4]);
    assert_eq!(sent, Ok(()));
    let inner = settle(inner);
    assert!(send_available(&inner));
    let (inner, avail, queue) = recv_available(inner);
    assert!(!avail);
    assert!(queue);
    let mut next = link(true);
    next.inbox = vec![6, 7, 8, 9, 10];
    let (inner, before) = inner.swap_link(next);
    assert_eq!(before.unwrap().outbox, vec![1, 2, 3, 4]);
    let inner = settle(inner);
    let (inner, avail, _) = async_recv_available(inner);
    assert!(avail);
    let (inner, got) = async_recv(inner);
    assert_eq!(got, Ok(vec![6, 7, 8, 9]));
    let (_, left) = inner.swap_link(link(true));
    assert_eq!(left.unwrap().inbox, vec![10]);
}

#[test]
fn a_channel_that_is_lost_or_ended_fails() {
    let (_, sent) = async_send(Inner::Killed, vec![1]);
    assert_eq!(sent, Err(ChannelError::Error));
    let (_, sent) = async_send(Inner::Closed, vec![1]);
    assert_eq!(sent, Err(ChannelError::Exited));
    let (_, got) = async_recv(Inner::Killed);
    assert_eq!(got, Err(ChannelError::Error));
    let (_, got) = async_recv(Inner::Closed);
    assert_eq!(got, Err(ChannelError::Exited));
    assert!(send_available(&Inner::Killed));
    assert!(!send_available(&Inner::Closed));
    assert!(async_send_available(&Inner::Closed));
    assert!(Inner::Killed.is_in_order());
    assert!(!Inner::Killed.valid());
    assert!(Inner::Closed.closed());
}

#[test]
fn a_channel_is_closed_after_everything_is_sent() {
    let (local, remote) = greater(addr(1), addr(2));
    let inner = settle(Inner::connect(local, remote, Some(link(true))));
    let inner = inner.send(vec![1, 2]);
    assert!(inner.closable());
    let n = frame(&inner);
    let (mut inner, mut ask) = inner.close(n);
    let mut asked = Vec::new();
    while let Some(next) = ask {
        asked.push(next);
        let n = frame(&inner);
        let (later, more) = inner.poll(Seen::Did(next), n);
        inner = later;
        ask = more;
    }
    assert_eq!(asked.last(), Some(&ChannelAsk::Close));
    let (_, link) = inner.swap_link(link(false));
    assert_eq!(link.unwrap().outbox, vec![1, 2]);
}

#[test]
fn the_channels_of_a_process() {
    let (local, remote) = greater(addr(1), addr(2));
    let mut reactor = Reactor::new(local);
    assert_eq!(
        reactor.open(remote, Role::Sender, Some(link(true))),
        Opened::New
    );
    assert_eq!(reactor.open(remote, Role::Receiver, None), Opened::Shared);
    assert_eq!(reactor.open(remote, Role::Sender, None), Opened::Refused);
    assert_eq!(reactor.remotes(), vec![remote]);
    assert_eq!(reactor.chore(remote), Chore::Nothing);
    assert!(!reactor.release(remote, Role::Sender));
    assert!(!reactor.sweep(remote));
    reactor.finish();
    assert!(!reactor.over());
    assert_eq!(reactor.chore(remote), Chore::Close);
    let _ = reactor.exchange(remote, Inner::Closed);
    assert!(reactor.over());
    assert!(reactor.release(remote, Role::Receiver));
    assert!(reactor.remotes().is_empty());
}

#[test]
fn a_closed_channel_still_takes_a_connection_of_the_other_side() {
    let (remote, local) = greater(addr(1), addr(2));
    let mut reactor = Reactor::new(local);
    assert!(reactor.accepts(remote));
    assert!(matches!(reactor.accept(remote, link(true)), Accepted::New));
    let inner = reactor.exchange(remote, Inner::Killed);
    assert!(!reactor.accepts(remote));
    let (inner, ask) = inner.close(None);
    assert_eq!(ask, Some(ChannelAsk::Poll));
    match &inner {
        Inner::ConnectingLocalClosed(c) => assert_eq!(c.side, Side::Incoming),
        _ => panic!("not waiting"),
    }
    let _ = reactor.exchange(remote, inner);
    assert!(reactor.accepts(remote));
    match reactor.accept(remote, link(true)) {
        Accepted::Added(before) => assert!(before.is_some()),
        _ => panic!("not added"),
    }
}

#[test]
fn a_channel_that_was_never_connected_ends_at_once() {
    let (remote, local) = greater(addr(1), addr(2));
    let (inner, ask) = Inner::connect(local, remote, None).close(None);
    assert_eq!(ask, None);
    assert!(inner.closed());
}

#[test]
fn the_greater_address_connects() {
    for (local, remote, side) in [
        (addr(2), addr(1), Side::Outgoing),
        (addr(1), addr(2), Side::Incoming),
    ] {
        match Inner::connect_by_address(local, remote, Some(link(true))) {
            Inner::Connecting(c) => assert_eq!(c.side, side),
            _ => panic!("not connecting"),
        }
    }
}

#[test]
fn how_a_channel_fails_in_words() {
    assert_ne!(
        ChannelError::Exited.to_string(),
        ChannelError::Error.to_string()
    );
    assert_ne!(
        ChannelError::Exited.description(),
        ChannelError::Error.description()
    );
}

#[test]
fn one_of_those_that_can_go_ahead_is_picked() {
    for _ in 0..20 {
        match select(vec!['a', 'b', 'c'], &vec![false, true, true]) {
            Selected::Picked(item, rest) => {
                assert!(item == 'b' || item == 'c');
                assert_eq!(rest.len(), 2);
                assert_eq!(rest[0], 'a');
            }
            Selected::Blocked(_) => panic!("blocked"),
        }
    }
    match select(vec!['a'], &vec![false]) {
        Selected::Blocked(rest) => assert_eq!(rest, vec!['a']),
        Selected::Picked(_, _) => panic!("picked"),
    }
}

#[test]
fn all_of_several_run() {
    let mut items = vec!['a', 'b', 'c'];
    match run(vec!['a'], &vec![false]) {
        Turn::Waits(rest) => assert_eq!(rest, vec!['a']),
        _ => panic!("went"),
    }
    let mut ran = Vec::new();
    for _ in 0..3 {
        let available = vec![true; items.len()];
        items = match run(items, &available) {
            Turn::Goes(item, rest) => {
                ran.push(item);
                rest
            }
            _ => panic!("none went"),
        };
    }
    ran.sort();
    assert_eq!(ran, vec!['a', 'b', 'c']);
    assert!(matches!(run(items, &vec![]), Turn::Done));
}

#[test]
fn what_is_due_comes_in_order() {
    let mut timer = Timer::new();
    let first = timer.push(20, 1);
    let second = timer.push(10, 2);
    let third = timer.push(10, 3);
    assert_eq!(timer.peek(), Some(10));
    assert_eq!(timer.pop_due(9), None);
    assert_eq!(
        timer.pop_due(10),
        Some(TimeEvent {
            instant: 10,
            key: 2,
            slot: second
        })
    );
    assert!(timer.remove(third).is_some());
    assert!(timer.remove(third).is_none());
    assert_eq!(timer.pop_due(10), None);
    assert_eq!(timer.pop_due(30).unwrap().slot, first);
    assert_eq!(timer.peek(), None);
}

#[test]
fn events_for_what_is_gone_are_dropped() {
    let mut epoll = Epoll::new();
    assert!(epoll.update_timeout(50));
    assert!(!epoll.update_timeout(60));
    assert!(epoll.update_timeout(40));
    epoll.begin_wait();
    epoll.delete(1);
    epoll.delete(2);
    epoll.add(2);
    let events = vec![
        EpollEvent { key: 1, flags: 1 },
        EpollEvent { key: 2, flags: 1 },
    ];
    let (left, more) = epoll.end_wait(&events, true);
    assert_eq!(left.len(), 1);
    assert_eq!(left[0].key, 2);
    assert!(!more);
    assert!(epoll.update_timeout(60));
}

#[test]
fn the_timer_is_set_for_what_comes_first() {
    let mut executor = EpollExecutor::new();
    let (_, set) = executor.add_instant(100, 1);
    assert!(set);
    let (_, set) = executor.add_instant(200, 2);
    assert!(!set);
    assert_eq!(executor.timer.pop_due(150).unwrap().key, 1);
    executor.epoll.begin_wait();
    let _ = executor.epoll.end_wait(&vec![], true);
    let wait = executor.prepare(true);
    assert!(wait.nonblock);
    assert_eq!(wait.set_timer, Some(200));
    assert_eq!(executor.prepare(false).set_timer, None);
}

#[test]
fn bytes_pass_until_one_has_to_wait() {
    assert_eq!(start(0), Transfer::Done(0));
    let at = start(3);
    assert_eq!(at, Transfer::Wait(0));
    let at = go_on(3, at, Passed::Yes);
    assert_eq!(at, Transfer::Try(1));
    assert_eq!(go_on(3, at, Passed::NotNow), Transfer::Done(1));
    assert_eq!(
        go_on(3, at, Passed::Failed(ChannelError::Error)),
        Transfer::Done(1)
    );
    assert_eq!(
        go_on(3, Transfer::Wait(0), Passed::Failed(ChannelError::Exited)),
        Transfer::Failed(IoError::UnexpectedEof)
    );
    assert_eq!(
        go_on(3, Transfer::Wait(0), Passed::Failed(ChannelError::Error)),
        Transfer::Failed(IoError::ConnectionReset)
    );
    assert_eq!(go_on(3, Transfer::Try(2), Passed::Yes), Transfer::Done(3));
}

#[test]
fn what_comes_is_received() {
    let mut listener = LinuxTcpListener::with_socket_forwardee(3);
    assert_eq!(listener.poll(Arrived::Nothing), Reception::Stop);
    assert_eq!(
        listener.poll(Arrived::Listener { fd: 9 }),
        Reception::Relisten { previous: 3, fd: 9 }
    );
    assert_eq!(
        listener.poll(Arrived::Claimed { fd: 4, to: 5 }),
        Reception::Forward { fd: 4, to: 5 }
    );
    let taken = Arrived::Connection {
        fd: 6,
        remote: Some(addr(1)),
        error: 0,
    };
    assert_eq!(
        listener.poll(taken),
        Reception::Take {
            fd: 6,
            remote: addr(1)
        }
    );
    let refused = Arrived::Connection {
        fd: 6,
        remote: None,
        error: 0,
    };
    assert_eq!(listener.poll(refused), Reception::Refuse { fd: 6 });
    assert_eq!(listener.into_fd(), 9);
    assert_eq!(LinuxTcpListener::with_fd(3).into_fd(), 3);
}

#[test]
fn those_who_wait_are_woken() {
    let mut waiters = Waiters::new();
    waiters.subscribe(1);
    waiters.subscribe(2);
    waiters.poll_later(9);
    assert!(waiters.waits(1));
    let woken = waiters.wake();
    assert_eq!((woken.threads, woken.tasks), (vec![1, 2], vec![9]));
    waiters.unsubscribe(1);
    assert!(!waiters.waits(1));
    let woken = waiters.wake();
    assert_eq!((woken.threads, woken.tasks), (vec![2], vec![]));
}
