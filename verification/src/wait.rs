//! What waiting for a child process gives, and what follows from it.

use crate::exit::{ExitStatus, ExitStatusError, ExitStatusUnix, Signal};
use crate::resources::Resources;
use vstd::prelude::*;

verus! {

/// What a wait for a child process gave.
#[derive(Copy, Clone, PartialEq, Eq, Debug, Structural)]
pub enum Waited {
    /// Nothing yet: a signal came in between.
    Interrupted,
    /// There is no child to wait for.
    NoChild,
    /// The child exited with this code.
    Exited(i32),
    /// This signal ended the child.
    Signaled(Signal),
    /// Anything else.
    Other,
}

/// What the one who waits does next.
#[derive(Copy, Clone, PartialEq, Eq, Debug, Structural)]
pub enum Waiting {
    /// Wait again.
    Again,
    /// Stop waiting.
    Over,
    /// Give up: this cannot happen to a program that is sound.
    Bad,
}

/// The status of a child that ended, `None` if it did not end in one of the ways
/// in which a process ends.
pub open spec fn ended(waited: Waited) -> Option<ExitStatus> {
    match waited {
        Waited::Exited(code) if 0 <= code <= 255 => Some(
            if code == 0 {
                ExitStatus::Success
            } else {
                ExitStatus::Error(ExitStatusError::Unix(ExitStatusUnix::Status(code as u8)))
            },
        ),
        Waited::Signaled(signal) => Some(
            ExitStatus::Error(ExitStatusError::Unix(ExitStatusUnix::Signal(signal))),
        ),
        _ => None,
    }
}

impl Waited {
    /// For one who waits for all children to leave in peace: goes on after an
    /// interruption and after each child that exited with zero, and stops when
    /// none is left.
    pub fn reap(self) -> (r: Waiting)
        ensures
            r == match self {
                Waited::Interrupted => Waiting::Again,
                Waited::Exited(0) => Waiting::Again,
                Waited::NoChild => Waiting::Over,
                _ => Waiting::Bad,
            },
    {
        match self {
            Waited::Interrupted => Waiting::Again,
            Waited::Exited(code) => if code == 0 {
                Waiting::Again
            } else {
                Waiting::Bad
            },
            Waited::NoChild => Waiting::Over,
            _ => Waiting::Bad,
        }
    }

    /// For one who waits for one child: goes on after an interruption, and stops
    /// when the child ended.
    pub fn watch(self) -> (r: Waiting)
        ensures
            r == (if self is Interrupted {
                Waiting::Again
            } else if ended(self) is Some {
                Waiting::Over
            } else {
                Waiting::Bad
            }),
    {
        match self {
            Waited::Interrupted => Waiting::Again,
            _ => if self.status().is_some() {
                Waiting::Over
            } else {
                Waiting::Bad
            },
        }
    }

    /// The status of a child that ended.
    pub fn status(self) -> (r: Option<ExitStatus>)
        ensures
            r == ended(self),
    {
        match self {
            Waited::Exited(code) => if code >= 0 && code <= 255 {
                Some(ExitStatus::from_unix_status(code as u8))
            } else {
                None
            },
            Waited::Signaled(signal) => Some(ExitStatus::from_unix_signal(signal)),
            _ => None,
        }
    }

    /// What a program requires that was asked for its requirements: what it
    /// answered, if it then exited with zero.
    pub fn requirements(self, answer: Option<Resources>) -> (r: Option<Resources>)
        ensures
            r == (if self == Waited::Exited(0) {
                answer
            } else {
                None
            }),
    {
        match self {
            Waited::Exited(code) => if code == 0 {
                answer
            } else {
                None
            },
            _ => None,
        }
    }
}

/// A child that exited succeeded exactly if it exited with zero, and one that
/// was ended by a signal never did. Children that ended differently have
/// different statuses.
pub proof fn law_status_tells_the_end(a: Waited, b: Waited)
    requires
        ended(a) is Some,
        ended(b) is Some,
    ensures
        ended(a) == Some(ExitStatus::Success) <==> a == Waited::Exited(0),
        ended(a) == ended(b) ==> a == b,
{
}

/// Whoever passes on how a child ended ends with the code that a shell gives: that
/// with which the child exited, or the number of the signal above a hundred and
/// twenty-eight.
pub proof fn law_ends_are_passed_on(code: u8, signal: Signal)
    ensures
        ended(Waited::Exited(code as i32)) matches Some(status) && crate::exit::exit_code(status)
            == code,
        signal.spec_number() matches Some(n) ==> (ended(Waited::Signaled(signal)) matches Some(
            status,
        ) && crate::exit::exit_code(status) == 128 + n),
        ended(Waited::Interrupted) is None,
        ended(Waited::NoChild) is None,
        ended(Waited::Other) is None,
        forall|other: i32|
            other < 0 || other > 255 ==> #[trigger] ended(Waited::Exited(other)) is None,
{
}

} // verus!
