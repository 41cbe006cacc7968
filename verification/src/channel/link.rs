//! What a channel and its connection hand each other.

use crate::channel::inner::{Link, LinkView};
use crate::channel::tcp_linux::{to_read, to_send, with_recv, with_send, LinuxTcp, Tcp, BUF};
use vstd::prelude::*;

verus! {

/// Whether the other side of a connection has ended.
pub open spec fn ended(tcp: Tcp) -> bool {
    match tcp {
        Tcp::Connected { remote_closed, .. } => remote_closed,
        Tcp::LocalClosed { remote_closed, .. } => remote_closed,
        _ => false,
    }
}

/// How many bytes come out of the connection: as many as it holds, but so that
/// the channel is never left with more than `BUF`.
pub open spec fn taken(link: LinkView, tcp: Tcp) -> int {
    if link.inbox.len() >= BUF {
        0
    } else if to_read(tcp).len() <= BUF - link.inbox.len() {
        to_read(tcp).len() as int
    } else {
        BUF - link.inbox.len()
    }
}

/// The connection once bytes were handed over.
pub open spec fn tcp_after(link: LinkView, tcp: Tcp) -> Tcp {
    let sent = with_send(tcp, to_send(tcp) + link.outbox);
    with_recv(sent, to_read(tcp).skip(taken(link, tcp)), ended(tcp))
}

/// What the channel knows of the connection once bytes were handed over. What
/// has come is there to be taken even if nothing more comes.
pub open spec fn link_after(link: LinkView, tcp: Tcp) -> LinkView {
    let inbox = link.inbox + to_read(tcp).take(taken(link, tcp));
    LinkView {
        connecting: tcp is Connecter || tcp is Connectee || tcp is ConnecterLocalClosed
            || tcp is ConnecteeLocalClosed,
        sendable: tcp is Connected || tcp is RemoteClosed,
        recvable: tcp is Connected || tcp is LocalClosed || inbox.len() > 0,
        closable: tcp is Connecter || tcp is Connectee || tcp is Connected || tcp is RemoteClosed,
        closed: tcp is Closed && inbox.len() == 0,
        valid: !(tcp is Killed),
        room: if tcp is Connected || tcp is RemoteClosed {
            BUF - to_send(tcp).len() - link.outbox.len()
        } else {
            0
        },
        inbox,
        outbox: Seq::empty(),
    }
}

/// Puts bytes into a connection.
fn put(tcp: LinuxTcp, bytes: Vec<u8>) -> (r: LinuxTcp)
    requires
        tcp.wf(),
        bytes@.len() > 0 ==> (tcp@ is Connected || tcp@ is RemoteClosed),
        to_send(tcp@).len() + bytes@.len() <= BUF,
        tcp.ever_sent() + bytes@.len() <= usize::MAX,
    ensures
        r.wf(),
        r@ == with_send(tcp@, to_send(tcp@) + bytes@),
{
    if bytes.len() == 0 {
        assert(to_send(tcp@) + bytes@ =~= to_send(tcp@));
        tcp
    } else {
        tcp.send_all(bytes)
    }
}

/// Takes the first `n` bytes that have come out of a connection.
fn pull(tcp: LinuxTcp, n: usize, into: &mut Vec<u8>) -> (r: LinuxTcp)
    requires
        tcp.wf(),
        n <= to_read(tcp@).len(),
    ensures
        r.wf(),
        r@ == with_recv(tcp@, to_read(tcp@).skip(n as int), ended(tcp@)),
        final(into)@ == old(into)@ + to_read(tcp@).take(n as int),
{
    let ghost start = tcp@;
    let mut tcp = tcp;
    proof {
        assert(to_read(start).skip(0) =~= to_read(start));
        assert(into@ + to_read(start).take(0) =~= into@);
    }
    for i in 0..n
        invariant
            tcp.wf(),
            n <= to_read(start).len(),
            tcp@ == with_recv(start, to_read(start).skip(i as int), ended(start)),
            into@ == old(into)@ + to_read(start).take(i as int),
    {
        assert(to_read(tcp@) == to_read(start).skip(i as int));
        let (next, byte) = tcp.recv();
        tcp = next;
        into.push(byte);
        proof {
            assert(to_read(start).skip(i as int).skip(1) =~= to_read(start).skip(i + 1));
            assert(to_read(start).take(i as int).push(byte) =~= to_read(start).take(i + 1));
            assert(into@ =~= old(into)@ + to_read(start).take(i + 1));
        }
    }
    tcp
}

/// Hands over what the channel has put out and what has come for it, and tells
/// the channel how the connection stands.
pub fn hand_over(link: Link, tcp: LinuxTcp) -> (r: (Link, LinuxTcp))
    requires
        tcp.wf(),
        link.outbox@.len() > 0 ==> (tcp@ is Connected || tcp@ is RemoteClosed),
        to_send(tcp@).len() + link.outbox@.len() <= BUF,
        tcp.ever_sent() + link.outbox@.len() <= usize::MAX,
    ensures
        r.1.wf(),
        r.1@ == tcp_after(link@, tcp@),
        r.0@ == link_after(link@, tcp@),
{
    let ghost view = link@;
    let ghost before = tcp@;
    let tcp = put(tcp, link.outbox);
    let mut inbox = link.inbox;
    let held: usize = tcp.room();
    let n: usize = if tcp.recvable() && inbox.len() < BUF {
        let available: usize = BUF - held;
        let free: usize = BUF - inbox.len();
        if available <= free {
            available
        } else {
            free
        }
    } else {
        0
    };
    assert(n == taken(view, before));
    let tcp = pull(tcp, n, &mut inbox);
    let room: usize = if tcp.sendable() {
        BUF - tcp.unsent().len()
    } else {
        0
    };
    let link = Link {
        connecting: tcp.connecting(),
        sendable: tcp.sendable(),
        recvable: tcp.recvable() || inbox.len() > 0,
        closable: tcp.closable(),
        closed: tcp.closed() && inbox.len() == 0,
        valid: tcp.valid(),
        room,
        inbox,
        outbox: Vec::new(),
    };
    assert(link@ =~= link_after(view, before));
    (link, tcp)
}

/// No byte is lost or changed on the way between a channel and its connection,
/// in either direction, and the channel never holds more than `BUF` bytes that
/// it has not taken, if it did not before.
pub proof fn law_handing_over_keeps_bytes(link: LinkView, tcp: Tcp)
    requires
        link.outbox.len() > 0 ==> (tcp is Connected || tcp is RemoteClosed),
    ensures
        link_after(link, tcp).inbox + to_read(tcp_after(link, tcp)) == link.inbox + to_read(tcp),
        to_send(tcp_after(link, tcp)) == to_send(tcp) + link.outbox,
        link.inbox.len() <= BUF ==> link_after(link, tcp).inbox.len() <= BUF,
{
    let n = taken(link, tcp);
    let after = tcp_after(link, tcp);
    assert(to_read(after) =~= to_read(tcp).skip(n)) by {
        if !(tcp is Connected || tcp is LocalClosed) {
            assert(to_read(tcp).skip(n) =~= Seq::<u8>::empty());
        }
    }
    assert(link_after(link, tcp).inbox + to_read(after) =~= link.inbox + to_read(tcp));
    assert(to_send(after) =~= to_send(tcp) + link.outbox);
}

/// What a channel is told of its connection is true: nothing more comes only if all
/// that came was handed over and taken; it has ended only then too; it works unless
/// it is lost; and as much room is left as there is.
pub proof fn law_a_channel_is_told_the_truth(link: LinkView, tcp: Tcp)
    requires
        link.outbox.len() > 0 ==> (tcp is Connected || tcp is RemoteClosed),
    ensures
        ({
            let told = link_after(link, tcp);
            let after = tcp_after(link, tcp);
            &&& !told.recvable ==> told.inbox.len() == 0 && !(tcp is Connected) && !(tcp
                is LocalClosed)
            &&& told.closed ==> tcp is Closed && told.inbox.len() == 0
            &&& tcp is Closed && told.inbox.len() == 0 ==> told.closed
            &&& told.valid <==> !(tcp is Killed)
            &&& told.sendable ==> told.room + to_send(after).len() == BUF
            &&& !told.sendable ==> told.room == 0
            &&& told.sendable <==> tcp is Connected || tcp is RemoteClosed
            &&& told.outbox.len() == 0
            &&& told.connecting ==> !told.sendable && to_read(tcp).len() == 0
            &&& told.inbox.len() < BUF ==> to_read(after).len() == 0
        }),
{
    law_handing_over_keeps_bytes(link, tcp);
}

} // verus!
