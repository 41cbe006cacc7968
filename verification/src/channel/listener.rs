//! Connections that other processes make.

use crate::net::SocketAddr;
use vstd::prelude::*;

verus! {

/// How many connections may wait to be accepted.
pub const LISTEN_BACKLOG: usize = 128;

/// Where connections come from: a socket that listens, or another process that
/// forwards what it accepted.
#[derive(Copy, Clone, PartialEq, Eq, Debug, Structural)]
pub struct LinuxTcpListener {
    pub fd: i32,
    /// Whether connections are forwarded by another process.
    pub forwarded: bool,
}

/// What came from there.
#[derive(Copy, Clone, PartialEq, Eq, Debug)]
pub enum Arrived {
    /// Nothing for now.
    Nothing,
    /// The socket that listens itself.
    Listener { fd: i32 },
    /// A connection that is to be forwarded to another process.
    Claimed { fd: i32, to: i32 },
    /// A connection: its other end, if that is known, and the error number that
    /// it has met with.
    Connection { fd: i32, remote: Option<SocketAddr>, error: i32 },
}

/// What is done about it.
#[derive(Copy, Clone, PartialEq, Eq, Debug, Structural)]
pub enum Reception {
    /// Nothing more for now.
    Stop,
    /// From now on it is listened on `fd`, which is watched in place of
    /// `previous`, and `previous` is closed.
    Relisten { previous: i32, fd: i32 },
    /// The connection is sent to another process.
    Forward { fd: i32, to: i32 },
    /// The connection is taken.
    Take { fd: i32, remote: SocketAddr },
    /// The connection is closed.
    Refuse { fd: i32 },
}

/// What is done about what came.
pub open spec fn reception(listener: LinuxTcpListener, arrived: Arrived) -> Reception {
    match arrived {
        Arrived::Nothing => Reception::Stop,
        Arrived::Listener { fd } => Reception::Relisten { previous: listener.fd, fd },
        Arrived::Claimed { fd, to } => Reception::Forward { fd, to },
        Arrived::Connection { fd, remote: Some(remote), error } if error == 0 => Reception::Take {
            fd,
            remote,
        },
        Arrived::Connection { fd, .. } => Reception::Refuse { fd },
    }
}

impl LinuxTcpListener {
    /// Connections come from a socket that listens.
    pub fn with_fd(fd: i32) -> (r: LinuxTcpListener)
        ensures
            r == (LinuxTcpListener { fd, forwarded: false }),
    {
        LinuxTcpListener { fd, forwarded: false }
    }

    /// Connections are forwarded by another process.
    pub fn with_socket_forwardee(fd: i32) -> (r: LinuxTcpListener)
        ensures
            r == (LinuxTcpListener { fd, forwarded: true }),
    {
        LinuxTcpListener { fd, forwarded: true }
    }

    /// The socket that connections come from.
    pub fn into_fd(self) -> (r: i32)
        ensures
            r == self.fd,
    {
        self.fd
    }

    /// Says what is done about what came. The socket that listens only ever comes
    /// from a process that forwards.
    pub fn poll(&mut self, arrived: Arrived) -> (r: Reception)
        requires
            arrived is Listener ==> old(self).forwarded,
        ensures
            r == reception(*old(self), arrived),
            *final(self) == (match arrived {
                Arrived::Listener { fd } => LinuxTcpListener { fd, forwarded: false },
                _ => *old(self),
            }),
    {
        match arrived {
            Arrived::Nothing => Reception::Stop,
            Arrived::Listener { fd } => {
                let previous: i32 = self.fd;
                self.fd = fd;
                self.forwarded = false;
                Reception::Relisten { previous, fd }
            },
            Arrived::Claimed { fd, to } => Reception::Forward { fd, to },
            Arrived::Connection { fd, remote, error } => match remote {
                Some(remote) => if error == 0 {
                    Reception::Take { fd, remote }
                } else {
                    Reception::Refuse { fd }
                },
                None => Reception::Refuse { fd },
            },
        }
    }
}

/// Every socket that comes is listened on, sent on, taken or closed: exactly one
/// of them, and no other socket is touched but the one that was listened on.
pub proof fn law_every_socket_is_seen_to(listener: LinuxTcpListener, arrived: Arrived)
    ensures
        match reception(listener, arrived) {
            Reception::Stop => arrived is Nothing,
            Reception::Relisten { previous, fd } => arrived == (Arrived::Listener { fd }) && previous
                == listener.fd,
            Reception::Forward { fd, to } => arrived == (Arrived::Claimed { fd, to }),
            Reception::Take { fd, remote } => arrived == (Arrived::Connection {
                fd,
                remote: Some(remote),
                error: 0,
            }),
            Reception::Refuse { fd } => arrived matches Arrived::Connection {
                fd: f,
                remote,
                error,
            } && f == fd && (remote is None || error != 0),
        },
{
}

} // verus!
