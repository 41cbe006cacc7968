//! Streams of bytes over channels of bytes.

use crate::channel::reactor::ChannelError;
use vstd::prelude::*;

verus! {

/// How the failure of a channel shows on a stream of bytes.
#[derive(Copy, Clone, PartialEq, Eq, Debug, Structural)]
pub enum IoError {
    UnexpectedEof,
    ConnectionReset,
}

/// How the failure of a channel shows on a stream of bytes.
pub open spec fn shown(error: ChannelError) -> IoError {
    match error {
        ChannelError::Exited => IoError::UnexpectedEof,
        ChannelError::Error => IoError::ConnectionReset,
    }
}

/// What passing several bytes does next.
#[derive(Copy, Clone, PartialEq, Eq, Debug, Structural)]
pub enum Transfer {
    /// The byte at that place is passed, waiting until it can be.
    Wait(usize),
    /// The byte at that place is passed if it can be at once.
    Try(usize),
    /// That many bytes were passed.
    Done(usize),
    /// Nothing was passed.
    Failed(IoError),
}

/// What passing a byte met with.
#[derive(Copy, Clone, PartialEq, Eq, Debug, Structural)]
pub enum Passed {
    /// It was passed.
    Yes,
    /// It could not be passed at once.
    NotNow,
    /// The channel has failed.
    Failed(ChannelError),
}

/// What passing `len` bytes starts with: only the first byte is waited for.
pub open spec fn starts(len: usize) -> Transfer {
    if len == 0 {
        Transfer::Done(0)
    } else {
        Transfer::Wait(0)
    }
}

/// What passing `len` bytes does after a byte. A failure shows only if nothing
/// was passed before it.
pub open spec fn goes_on(len: usize, at: Transfer, passed: Passed) -> Transfer {
    match (at, passed) {
        (Transfer::Wait(i), Passed::Failed(error)) => Transfer::Failed(shown(error)),
        (Transfer::Try(i), Passed::Failed(_)) => Transfer::Done(i),
        (Transfer::Try(i), Passed::NotNow) => Transfer::Done(i),
        (Transfer::Wait(i), Passed::Yes) => if i + 1 == len {
            Transfer::Done(len)
        } else {
            Transfer::Try((i + 1) as usize)
        },
        (Transfer::Try(i), Passed::Yes) => if i + 1 == len {
            Transfer::Done(len)
        } else {
            Transfer::Try((i + 1) as usize)
        },
        _ => at,
    }
}

/// What passing `len` bytes starts with.
pub fn start(len: usize) -> (r: Transfer)
    ensures
        r == starts(len),
{
    if len == 0 {
        Transfer::Done(0)
    } else {
        Transfer::Wait(0)
    }
}

/// What passing `len` bytes does after a byte.
pub fn go_on(len: usize, at: Transfer, passed: Passed) -> (r: Transfer)
    requires
        match at {
            Transfer::Wait(i) => i < len && passed != Passed::NotNow,
            Transfer::Try(i) => i < len,
            _ => false,
        },
    ensures
        r == goes_on(len, at, passed),
{
    match (at, passed) {
        (Transfer::Wait(_), Passed::Failed(ChannelError::Exited)) => Transfer::Failed(
            IoError::UnexpectedEof,
        ),
        (Transfer::Wait(_), Passed::Failed(ChannelError::Error)) => Transfer::Failed(
            IoError::ConnectionReset,
        ),
        (Transfer::Try(i), Passed::Failed(_)) => Transfer::Done(i),
        (Transfer::Try(i), Passed::NotNow) => Transfer::Done(i),
        (Transfer::Wait(i), Passed::Yes) => if i + 1 == len {
            Transfer::Done(len)
        } else {
            Transfer::Try(i + 1)
        },
        (Transfer::Try(i), Passed::Yes) => if i + 1 == len {
            Transfer::Done(len)
        } else {
            Transfer::Try(i + 1)
        },
        (at, _) => at,
    }
}

/// How many bytes have been passed.
pub open spec fn progress(at: Transfer) -> int {
    match at {
        Transfer::Wait(i) => i as int,
        Transfer::Try(i) => i as int,
        Transfer::Done(n) => n as int,
        Transfer::Failed(_) => 0,
    }
}

/// Exactly the bytes that were passed are counted, and never more than there
/// are; a stream that is given bytes and does not fail passes at least one.
pub proof fn law_passed_bytes_are_counted(len: usize, at: Transfer, passed: Passed)
    requires
        match at {
            Transfer::Wait(i) => i == 0 && i < len && passed != Passed::NotNow,
            Transfer::Try(i) => 0 < i < len,
            _ => false,
        },
    ensures
        progress(goes_on(len, at, passed)) == progress(at) + if passed == Passed::Yes {
            1int
        } else {
            0int
        },
        progress(goes_on(len, at, passed)) <= len,
        goes_on(len, at, passed) matches Transfer::Done(n) ==> n > 0,
{
}

/// That the other side has ended and that the connection was lost show differently,
/// and each as itself.
pub proof fn law_failures_are_told_apart(error: ChannelError)
    ensures
        shown(error) == IoError::UnexpectedEof <==> error == ChannelError::Exited,
        shown(error) == IoError::ConnectionReset <==> error == ChannelError::Error,
{
}

/// Only the first byte is waited for. A failure there is the failure of the whole;
/// later on, whatever keeps a byte from passing ends it with what was passed; and
/// while bytes pass, it goes on until all have.
pub proof fn law_only_the_first_byte_is_waited_for(len: usize, i: usize, passed: Passed)
    requires
        i < len,
    ensures
        starts(0) == Transfer::Done(0),
        starts(len) == Transfer::Wait(0),
        passed != Passed::NotNow ==> !(goes_on(len, Transfer::Wait(i), passed) is Wait),
        !(goes_on(len, Transfer::Try(i), passed) is Wait),
        !(goes_on(len, Transfer::Try(i), passed) is Failed),
        passed matches Passed::Failed(error) ==> (goes_on(len, Transfer::Wait(i), passed)
            matches Transfer::Failed(met) && met == shown(error)),
        passed != Passed::Yes ==> goes_on(len, Transfer::Try(i), passed) == Transfer::Done(i),
        goes_on(len, Transfer::Wait(i), Passed::Yes) is Done <==> i == len - 1,
        goes_on(len, Transfer::Try(i), Passed::Yes) is Done <==> i == len - 1,
        i < len - 1 ==> goes_on(len, Transfer::Try(i), Passed::Yes) == Transfer::Try(
            (i + 1) as usize,
        ),
{
}

} // verus!
