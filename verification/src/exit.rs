//! How processes end.

use crate::text::format_decimal;
use crate::text;
use vstd::prelude::*;
use vstd::std_specs::ops::{AddSpec, AddSpecImpl};

verus! {

/// A signal that can end a process.
#[derive(Copy, Clone, PartialEq, Eq, Hash, Debug, Structural)]
pub enum Signal {
    SIGHUP,
    SIGINT,
    SIGQUIT,
    SIGILL,
    SIGTRAP,
    SIGABRT,
    SIGBUS,
    SIGFPE,
    SIGKILL,
    SIGUSR1,
    SIGSEGV,
    SIGUSR2,
    SIGPIPE,
    SIGALRM,
    SIGTERM,
    SIGSTKFLT,
    SIGCHLD,
    SIGCONT,
    SIGSTOP,
    SIGTSTP,
    SIGTTIN,
    SIGTTOU,
    SIGURG,
    SIGXCPU,
    SIGXFSZ,
    SIGVTALRM,
    SIGPROF,
    SIGWINCH,
    SIGIO,
    SIGPWR,
    SIGSYS,
    SIGEMT,
    SIGINFO,
}

/// How a Unix process failed.
#[derive(Copy, Clone, PartialEq, Eq, Hash, Debug, Structural)]
pub enum ExitStatusUnix {
    Status(u8),
    Signal(Signal),
}

/// How a process failed, or that several processes ended in different ways.
#[derive(Copy, Clone, PartialEq, Eq, Hash, Debug, Structural)]
pub enum ExitStatusError {
    Unix(ExitStatusUnix),
    Windows(u32),
    Indeterminate,
}

/// How a process ended.
#[derive(Copy, Clone, PartialEq, Eq, Hash, Debug, Structural)]
pub enum ExitStatus {
    Success,
    Error(ExitStatusError),
}

impl Signal {
    /// The signal's number on Linux; `None` for the signals that Linux lacks.
    pub open spec fn spec_number(self) -> Option<i32> {
        match self {
            Signal::SIGHUP => Some(1),
            Signal::SIGINT => Some(2),
            Signal::SIGQUIT => Some(3),
            Signal::SIGILL => Some(4),
            Signal::SIGTRAP => Some(5),
            Signal::SIGABRT => Some(6),
            Signal::SIGBUS => Some(7),
            Signal::SIGFPE => Some(8),
            Signal::SIGKILL => Some(9),
            Signal::SIGUSR1 => Some(10),
            Signal::SIGSEGV => Some(11),
            Signal::SIGUSR2 => Some(12),
            Signal::SIGPIPE => Some(13),
            Signal::SIGALRM => Some(14),
            Signal::SIGTERM => Some(15),
            Signal::SIGSTKFLT => Some(16),
            Signal::SIGCHLD => Some(17),
            Signal::SIGCONT => Some(18),
            Signal::SIGSTOP => Some(19),
            Signal::SIGTSTP => Some(20),
            Signal::SIGTTIN => Some(21),
            Signal::SIGTTOU => Some(22),
            Signal::SIGURG => Some(23),
            Signal::SIGXCPU => Some(24),
            Signal::SIGXFSZ => Some(25),
            Signal::SIGVTALRM => Some(26),
            Signal::SIGPROF => Some(27),
            Signal::SIGWINCH => Some(28),
            Signal::SIGIO => Some(29),
            Signal::SIGPWR => Some(30),
            Signal::SIGSYS => Some(31),
            Signal::SIGEMT => None,
            Signal::SIGINFO => None,
        }
    }

    /// The signal's name.
    pub open spec fn spec_name(self) -> Seq<char> {
        match self {
            Signal::SIGHUP => "SIGHUP"@,
            Signal::SIGINT => "SIGINT"@,
            Signal::SIGQUIT => "SIGQUIT"@,
            Signal::SIGILL => "SIGILL"@,
            Signal::SIGTRAP => "SIGTRAP"@,
            Signal::SIGABRT => "SIGABRT"@,
            Signal::SIGBUS => "SIGBUS"@,
            Signal::SIGFPE => "SIGFPE"@,
            Signal::SIGKILL => "SIGKILL"@,
            Signal::SIGUSR1 => "SIGUSR1"@,
            Signal::SIGSEGV => "SIGSEGV"@,
            Signal::SIGUSR2 => "SIGUSR2"@,
            Signal::SIGPIPE => "SIGPIPE"@,
            Signal::SIGALRM => "SIGALRM"@,
            Signal::SIGTERM => "SIGTERM"@,
            Signal::SIGSTKFLT => "SIGSTKFLT"@,
            Signal::SIGCHLD => "SIGCHLD"@,
            Signal::SIGCONT => "SIGCONT"@,
            Signal::SIGSTOP => "SIGSTOP"@,
            Signal::SIGTSTP => "SIGTSTP"@,
            Signal::SIGTTIN => "SIGTTIN"@,
            Signal::SIGTTOU => "SIGTTOU"@,
            Signal::SIGURG => "SIGURG"@,
            Signal::SIGXCPU => "SIGXCPU"@,
            Signal::SIGXFSZ => "SIGXFSZ"@,
            Signal::SIGVTALRM => "SIGVTALRM"@,
            Signal::SIGPROF => "SIGPROF"@,
            Signal::SIGWINCH => "SIGWINCH"@,
            Signal::SIGIO => "SIGIO"@,
            Signal::SIGPWR => "SIGPWR"@,
            Signal::SIGSYS => "SIGSYS"@,
            Signal::SIGEMT => "SIGEMT"@,
            Signal::SIGINFO => "SIGINFO"@,
        }
    }

    /// The signal's number on Linux; `None` for the signals that Linux lacks.
    pub fn number(self) -> (r: Option<i32>)
        ensures
            r == self.spec_number(),
    {
        match self {
            Signal::SIGHUP => Some(1),
            Signal::SIGINT => Some(2),
            Signal::SIGQUIT => Some(3),
            Signal::SIGILL => Some(4),
            Signal::SIGTRAP => Some(5),
            Signal::SIGABRT => Some(6),
            Signal::SIGBUS => Some(7),
            Signal::SIGFPE => Some(8),
            Signal::SIGKILL => Some(9),
            Signal::SIGUSR1 => Some(10),
            Signal::SIGSEGV => Some(11),
            Signal::SIGUSR2 => Some(12),
            Signal::SIGPIPE => Some(13),
            Signal::SIGALRM => Some(14),
            Signal::SIGTERM => Some(15),
            Signal::SIGSTKFLT => Some(16),
            Signal::SIGCHLD => Some(17),
            Signal::SIGCONT => Some(18),
            Signal::SIGSTOP => Some(19),
            Signal::SIGTSTP => Some(20),
            Signal::SIGTTIN => Some(21),
            Signal::SIGTTOU => Some(22),
            Signal::SIGURG => Some(23),
            Signal::SIGXCPU => Some(24),
            Signal::SIGXFSZ => Some(25),
            Signal::SIGVTALRM => Some(26),
            Signal::SIGPROF => Some(27),
            Signal::SIGWINCH => Some(28),
            Signal::SIGIO => Some(29),
            Signal::SIGPWR => Some(30),
            Signal::SIGSYS => Some(31),
            Signal::SIGEMT => None,
            Signal::SIGINFO => None,
        }
    }

    /// The signal that has the given number on Linux.
    pub fn from_number(number: i32) -> (r: Option<Signal>)
        ensures
            match r {
                Some(signal) => signal.spec_number() == Some(number),
                None => forall|signal: Signal| #[trigger] signal.spec_number() != Some(number),
            },
    {
        match number {
            1 => Some(Signal::SIGHUP),
            2 => Some(Signal::SIGINT),
            3 => Some(Signal::SIGQUIT),
            4 => Some(Signal::SIGILL),
            5 => Some(Signal::SIGTRAP),
            6 => Some(Signal::SIGABRT),
            7 => Some(Signal::SIGBUS),
            8 => Some(Signal::SIGFPE),
            9 => Some(Signal::SIGKILL),
            10 => Some(Signal::SIGUSR1),
            11 => Some(Signal::SIGSEGV),
            12 => Some(Signal::SIGUSR2),
            13 => Some(Signal::SIGPIPE),
            14 => Some(Signal::SIGALRM),
            15 => Some(Signal::SIGTERM),
            16 => Some(Signal::SIGSTKFLT),
            17 => Some(Signal::SIGCHLD),
            18 => Some(Signal::SIGCONT),
            19 => Some(Signal::SIGSTOP),
            20 => Some(Signal::SIGTSTP),
            21 => Some(Signal::SIGTTIN),
            22 => Some(Signal::SIGTTOU),
            23 => Some(Signal::SIGURG),
            24 => Some(Signal::SIGXCPU),
            25 => Some(Signal::SIGXFSZ),
            26 => Some(Signal::SIGVTALRM),
            27 => Some(Signal::SIGPROF),
            28 => Some(Signal::SIGWINCH),
            29 => Some(Signal::SIGIO),
            30 => Some(Signal::SIGPWR),
            31 => Some(Signal::SIGSYS),
            _ => None,
        }
    }

    /// The signal's name.
    pub fn name(self) -> (r: &'static str)
        ensures
            r@ == self.spec_name(),
    {
        match self {
            Signal::SIGHUP => "SIGHUP",
            Signal::SIGINT => "SIGINT",
            Signal::SIGQUIT => "SIGQUIT",
            Signal::SIGILL => "SIGILL",
            Signal::SIGTRAP => "SIGTRAP",
            Signal::SIGABRT => "SIGABRT",
            Signal::SIGBUS => "SIGBUS",
            Signal::SIGFPE => "SIGFPE",
            Signal::SIGKILL => "SIGKILL",
            Signal::SIGUSR1 => "SIGUSR1",
            Signal::SIGSEGV => "SIGSEGV",
            Signal::SIGUSR2 => "SIGUSR2",
            Signal::SIGPIPE => "SIGPIPE",
            Signal::SIGALRM => "SIGALRM",
            Signal::SIGTERM => "SIGTERM",
            Signal::SIGSTKFLT => "SIGSTKFLT",
            Signal::SIGCHLD => "SIGCHLD",
            Signal::SIGCONT => "SIGCONT",
            Signal::SIGSTOP => "SIGSTOP",
            Signal::SIGTSTP => "SIGTSTP",
            Signal::SIGTTIN => "SIGTTIN",
            Signal::SIGTTOU => "SIGTTOU",
            Signal::SIGURG => "SIGURG",
            Signal::SIGXCPU => "SIGXCPU",
            Signal::SIGXFSZ => "SIGXFSZ",
            Signal::SIGVTALRM => "SIGVTALRM",
            Signal::SIGPROF => "SIGPROF",
            Signal::SIGWINCH => "SIGWINCH",
            Signal::SIGIO => "SIGIO",
            Signal::SIGPWR => "SIGPWR",
            Signal::SIGSYS => "SIGSYS",
            Signal::SIGEMT => "SIGEMT",
            Signal::SIGINFO => "SIGINFO",
        }
    }
}

/// Different signals have different numbers.
pub proof fn law_signal_numbers_differ(a: Signal, b: Signal)
    requires
        a.spec_number() is Some,
        a.spec_number() == b.spec_number(),
    ensures
        a == b,
{
}

/// What several processes that ended with `a` and with `b` ended with: the same
/// if they agree, and no certain status otherwise.
pub open spec fn combined(a: ExitStatus, b: ExitStatus) -> ExitStatus {
    if a == b {
        a
    } else {
        ExitStatus::Error(ExitStatusError::Indeterminate)
    }
}

/// The code with which a program ends that passes a status on.
pub open spec fn exit_code(status: ExitStatus) -> int {
    match status {
        ExitStatus::Success => 0,
        ExitStatus::Error(ExitStatusError::Unix(ExitStatusUnix::Status(s))) => s as int,
        ExitStatus::Error(ExitStatusError::Unix(ExitStatusUnix::Signal(s))) => 128
            + s.spec_number().unwrap(),
        ExitStatus::Error(ExitStatusError::Windows(code)) => code as int,
        ExitStatus::Error(ExitStatusError::Indeterminate) => 101,
    }
}

/// Whether a status has an exit code.
pub open spec fn has_exit_code(status: ExitStatus) -> bool {
    match status {
        ExitStatus::Error(ExitStatusError::Unix(ExitStatusUnix::Signal(s))) => s.spec_number()
            is Some,
        ExitStatus::Error(ExitStatusError::Windows(code)) => code <= i32::MAX,
        _ => true,
    }
}

/// A status as it is shown to a person.
pub open spec fn status_text(status: ExitStatus) -> Seq<char> {
    match status {
        ExitStatus::Success => "Success"@,
        ExitStatus::Error(ExitStatusError::Unix(ExitStatusUnix::Status(s))) =>
            "Error(Unix(Status("@ + text::decimal_text(s as nat) + ")))"@,
        ExitStatus::Error(ExitStatusError::Unix(ExitStatusUnix::Signal(s))) =>
            "Error(Unix(Signal("@ + s.spec_name() + ")))"@,
        ExitStatus::Error(ExitStatusError::Windows(code)) => "Error(Windows("@
            + text::decimal_text(code as nat) + "))"@,
        ExitStatus::Error(ExitStatusError::Indeterminate) => "Error(Indeterminate)"@,
    }
}

impl ExitStatus {
    /// Whether the process succeeded.
    pub fn success(&self) -> (r: bool)
        ensures
            r == (*self == ExitStatus::Success),
    {
        match *self {
            ExitStatus::Success => true,
            _ => false,
        }
    }

    /// How the process failed, if it did.
    pub fn error(&self) -> (r: Option<ExitStatusError>)
        ensures
            match r {
                Some(e) => *self == ExitStatus::Error(e),
                None => *self == ExitStatus::Success,
            },
    {
        match *self {
            ExitStatus::Error(e) => Some(e),
            _ => None,
        }
    }

    /// The status of a Unix process that exited with `s`.
    pub fn from_unix_status(s: u8) -> (r: ExitStatus)
        ensures
            r == (if s == 0 {
                ExitStatus::Success
            } else {
                ExitStatus::Error(ExitStatusError::Unix(ExitStatusUnix::Status(s)))
            }),
    {
        if s == 0 {
            ExitStatus::Success
        } else {
            ExitStatus::Error(ExitStatusError::Unix(ExitStatusUnix::Status(s)))
        }
    }

    /// The status of a Unix process that a signal ended.
    pub fn from_unix_signal(s: Signal) -> (r: ExitStatus)
        ensures
            r == ExitStatus::Error(ExitStatusError::Unix(ExitStatusUnix::Signal(s))),
    {
        ExitStatus::Error(ExitStatusError::Unix(ExitStatusUnix::Signal(s)))
    }

    /// Adds the status of another process.
    pub fn add_assign(&mut self, other: ExitStatus)
        ensures
            *final(self) == combined(*old(self), other),
    {
        *self = *self + other;
    }

    /// Whether `to_code` takes this status.
    pub fn codable(&self) -> (r: bool)
        ensures
            r == has_exit_code(*self),
    {
        match *self {
            ExitStatus::Error(ExitStatusError::Unix(ExitStatusUnix::Signal(s))) => s.number().is_some(),
            ExitStatus::Error(ExitStatusError::Windows(code)) => code <= i32::MAX as u32,
            _ => true,
        }
    }

    /// The code with which a program ends that passes this status on.
    pub fn to_code(&self) -> (r: i32)
        requires
            has_exit_code(*self),
        ensures
            r == exit_code(*self),
    {
        match *self {
            ExitStatus::Success => 0,
            ExitStatus::Error(ExitStatusError::Unix(ExitStatusUnix::Status(s))) => s as i32,
            ExitStatus::Error(ExitStatusError::Unix(ExitStatusUnix::Signal(s))) => {
                let n: i32 = s.number().unwrap();
                assert(0 <= n < 128 ==> n | 0x80 == n + 128) by (bit_vector);
                n | 0x80
            },
            ExitStatus::Error(ExitStatusError::Windows(code)) => code as i32,
            ExitStatus::Error(ExitStatusError::Indeterminate) => 101,
        }
    }

    /// The status as it is shown to a person.
    pub fn to_text(&self) -> (r: String)
        ensures
            r@ == status_text(*self),
    {
        match *self {
            ExitStatus::Success => String::from_str("Success"),
            ExitStatus::Error(ExitStatusError::Unix(ExitStatusUnix::Status(s))) => String::from_str(
                "Error(Unix(Status(",
            ).concat(format_decimal(s as u64).as_str()).concat(")))"),
            ExitStatus::Error(ExitStatusError::Unix(ExitStatusUnix::Signal(s))) => String::from_str(
                "Error(Unix(Signal(",
            ).concat(s.name()).concat(")))"),
            ExitStatus::Error(ExitStatusError::Windows(code)) => String::from_str(
                "Error(Windows(",
            ).concat(format_decimal(code as u64).as_str()).concat("))"),
            ExitStatus::Error(ExitStatusError::Indeterminate) => String::from_str(
                "Error(Indeterminate)",
            ),
        }
    }
}

impl AddSpecImpl<ExitStatus> for ExitStatus {
    open spec fn obeys_add_spec() -> bool {
        true
    }

    open spec fn add_req(self, rhs: ExitStatus) -> bool {
        true
    }

    open spec fn add_spec(self, rhs: ExitStatus) -> ExitStatus {
        combined(self, rhs)
    }
}

impl core::ops::Add<ExitStatus> for ExitStatus {
    type Output = ExitStatus;

    fn add(self, rhs: ExitStatus) -> ExitStatus {
        if self == rhs {
            self
        } else {
            ExitStatus::Error(ExitStatusError::Indeterminate)
        }
    }
}

/// What several statuses come to does not depend on the order in which they are
/// added, nor on how often one of them is.
pub proof fn law_statuses_combine(a: ExitStatus, b: ExitStatus, c: ExitStatus)
    ensures
        combined(a, b) == combined(b, a),
        combined(combined(a, b), c) == combined(a, combined(b, c)),
        combined(a, a) == a,
{
}

/// The sum of some statuses is a success exactly if each of them is.
pub proof fn law_success_needs_all(a: ExitStatus, b: ExitStatus)
    ensures
        combined(a, b) == ExitStatus::Success <==> a == ExitStatus::Success && b
            == ExitStatus::Success,
{
}

/// Only a success has the exit code zero, for the statuses that
/// `from_unix_status` and `from_unix_signal` give and for their sums.
pub proof fn law_zero_means_success(status: ExitStatus)
    requires
        has_exit_code(status),
        status != ExitStatus::Error(ExitStatusError::Unix(ExitStatusUnix::Status(0))),
        status != ExitStatus::Error(ExitStatusError::Windows(0)),
    ensures
        exit_code(status) == 0 <==> status == ExitStatus::Success,
{
}

/// The signals as everyone numbers them on Linux, and as everyone calls them.
pub proof fn law_signals_are_the_usual_ones(signal: Signal)
    ensures
        signal.spec_number() == Some(1i32) <==> signal.spec_name() == "SIGHUP"@,
        signal.spec_number() == Some(2i32) <==> signal.spec_name() == "SIGINT"@,
        signal.spec_number() == Some(3i32) <==> signal.spec_name() == "SIGQUIT"@,
        signal.spec_number() == Some(4i32) <==> signal.spec_name() == "SIGILL"@,
        signal.spec_number() == Some(5i32) <==> signal.spec_name() == "SIGTRAP"@,
        signal.spec_number() == Some(6i32) <==> signal.spec_name() == "SIGABRT"@,
        signal.spec_number() == Some(7i32) <==> signal.spec_name() == "SIGBUS"@,
        signal.spec_number() == Some(8i32) <==> signal.spec_name() == "SIGFPE"@,
        signal.spec_number() == Some(9i32) <==> signal.spec_name() == "SIGKILL"@,
        signal.spec_number() == Some(10i32) <==> signal.spec_name() == "SIGUSR1"@,
        signal.spec_number() == Some(11i32) <==> signal.spec_name() == "SIGSEGV"@,
        signal.spec_number() == Some(12i32) <==> signal.spec_name() == "SIGUSR2"@,
        signal.spec_number() == Some(13i32) <==> signal.spec_name() == "SIGPIPE"@,
        signal.spec_number() == Some(14i32) <==> signal.spec_name() == "SIGALRM"@,
        signal.spec_number() == Some(15i32) <==> signal.spec_name() == "SIGTERM"@,
        signal.spec_number() == Some(16i32) <==> signal.spec_name() == "SIGSTKFLT"@,
        signal.spec_number() == Some(17i32) <==> signal.spec_name() == "SIGCHLD"@,
        signal.spec_number() == Some(18i32) <==> signal.spec_name() == "SIGCONT"@,
        signal.spec_number() == Some(19i32) <==> signal.spec_name() == "SIGSTOP"@,
        signal.spec_number() == Some(20i32) <==> signal.spec_name() == "SIGTSTP"@,
        signal.spec_number() == Some(21i32) <==> signal.spec_name() == "SIGTTIN"@,
        signal.spec_number() == Some(22i32) <==> signal.spec_name() == "SIGTTOU"@,
        signal.spec_number() == Some(23i32) <==> signal.spec_name() == "SIGURG"@,
        signal.spec_number() == Some(24i32) <==> signal.spec_name() == "SIGXCPU"@,
        signal.spec_number() == Some(25i32) <==> signal.spec_name() == "SIGXFSZ"@,
        signal.spec_number() == Some(26i32) <==> signal.spec_name() == "SIGVTALRM"@,
        signal.spec_number() == Some(27i32) <==> signal.spec_name() == "SIGPROF"@,
        signal.spec_number() == Some(28i32) <==> signal.spec_name() == "SIGWINCH"@,
        signal.spec_number() == Some(29i32) <==> signal.spec_name() == "SIGIO"@,
        signal.spec_number() == Some(30i32) <==> signal.spec_name() == "SIGPWR"@,
        signal.spec_number() == Some(31i32) <==> signal.spec_name() == "SIGSYS"@,
        signal.spec_number() is None <==> signal.spec_name() == "SIGEMT"@ || signal.spec_name()
            == "SIGINFO"@,
{
    lemma_name_key(signal);
    reveal_strlit("SIGHUP");
    reveal_strlit("SIGINT");
    reveal_strlit("SIGQUIT");
    reveal_strlit("SIGILL");
    reveal_strlit("SIGTRAP");
    reveal_strlit("SIGABRT");
    reveal_strlit("SIGBUS");
    reveal_strlit("SIGFPE");
    reveal_strlit("SIGKILL");
    reveal_strlit("SIGUSR1");
    reveal_strlit("SIGSEGV");
    reveal_strlit("SIGUSR2");
    reveal_strlit("SIGPIPE");
    reveal_strlit("SIGALRM");
    reveal_strlit("SIGTERM");
    reveal_strlit("SIGSTKFLT");
    reveal_strlit("SIGCHLD");
    reveal_strlit("SIGCONT");
    reveal_strlit("SIGSTOP");
    reveal_strlit("SIGTSTP");
    reveal_strlit("SIGTTIN");
    reveal_strlit("SIGTTOU");
    reveal_strlit("SIGURG");
    reveal_strlit("SIGXCPU");
    reveal_strlit("SIGXFSZ");
    reveal_strlit("SIGVTALRM");
    reveal_strlit("SIGPROF");
    reveal_strlit("SIGWINCH");
    reveal_strlit("SIGIO");
    reveal_strlit("SIGPWR");
    reveal_strlit("SIGSYS");
    reveal_strlit("SIGEMT");
    reveal_strlit("SIGINFO");
}

/// What tells the name of a signal from all others: its length, its fourth and
/// fifth character, and its last.
spec fn name_key(signal: Signal) -> (int, char, char, char) {
    match signal {
        Signal::SIGHUP => (6, 'H', 'U', 'P'),
        Signal::SIGINT => (6, 'I', 'N', 'T'),
        Signal::SIGQUIT => (7, 'Q', 'U', 'T'),
        Signal::SIGILL => (6, 'I', 'L', 'L'),
        Signal::SIGTRAP => (7, 'T', 'R', 'P'),
        Signal::SIGABRT => (7, 'A', 'B', 'T'),
        Signal::SIGBUS => (6, 'B', 'U', 'S'),
        Signal::SIGFPE => (6, 'F', 'P', 'E'),
        Signal::SIGKILL => (7, 'K', 'I', 'L'),
        Signal::SIGUSR1 => (7, 'U', 'S', '1'),
        Signal::SIGSEGV => (7, 'S', 'E', 'V'),
        Signal::SIGUSR2 => (7, 'U', 'S', '2'),
        Signal::SIGPIPE => (7, 'P', 'I', 'E'),
        Signal::SIGALRM => (7, 'A', 'L', 'M'),
        Signal::SIGTERM => (7, 'T', 'E', 'M'),
        Signal::SIGSTKFLT => (9, 'S', 'T', 'T'),
        Signal::SIGCHLD => (7, 'C', 'H', 'D'),
        Signal::SIGCONT => (7, 'C', 'O', 'T'),
        Signal::SIGSTOP => (7, 'S', 'T', 'P'),
        Signal::SIGTSTP => (7, 'T', 'S', 'P'),
        Signal::SIGTTIN => (7, 'T', 'T', 'N'),
        Signal::SIGTTOU => (7, 'T', 'T', 'U'),
        Signal::SIGURG => (6, 'U', 'R', 'G'),
        Signal::SIGXCPU => (7, 'X', 'C', 'U'),
        Signal::SIGXFSZ => (7, 'X', 'F', 'Z'),
        Signal::SIGVTALRM => (9, 'V', 'T', 'M'),
        Signal::SIGPROF => (7, 'P', 'R', 'F'),
        Signal::SIGWINCH => (8, 'W', 'I', 'H'),
        Signal::SIGIO => (5, 'I', 'O', 'O'),
        Signal::SIGPWR => (6, 'P', 'W', 'R'),
        Signal::SIGSYS => (6, 'S', 'Y', 'S'),
        Signal::SIGEMT => (6, 'E', 'M', 'T'),
        Signal::SIGINFO => (7, 'I', 'N', 'O'),
    }
}

proof fn lemma_name_key(signal: Signal)
    ensures
        ({
            let name = signal.spec_name();
            (name.len() as int, name[3], name[4], name[name.len() - 1]) == name_key(signal)
        }),
{
    reveal_strlit("SIGHUP");
    reveal_strlit("SIGINT");
    reveal_strlit("SIGQUIT");
    reveal_strlit("SIGILL");
    reveal_strlit("SIGTRAP");
    reveal_strlit("SIGABRT");
    reveal_strlit("SIGBUS");
    reveal_strlit("SIGFPE");
    reveal_strlit("SIGKILL");
    reveal_strlit("SIGUSR1");
    reveal_strlit("SIGSEGV");
    reveal_strlit("SIGUSR2");
    reveal_strlit("SIGPIPE");
    reveal_strlit("SIGALRM");
    reveal_strlit("SIGTERM");
    reveal_strlit("SIGSTKFLT");
    reveal_strlit("SIGCHLD");
    reveal_strlit("SIGCONT");
    reveal_strlit("SIGSTOP");
    reveal_strlit("SIGTSTP");
    reveal_strlit("SIGTTIN");
    reveal_strlit("SIGTTOU");
    reveal_strlit("SIGURG");
    reveal_strlit("SIGXCPU");
    reveal_strlit("SIGXFSZ");
    reveal_strlit("SIGVTALRM");
    reveal_strlit("SIGPROF");
    reveal_strlit("SIGWINCH");
    reveal_strlit("SIGIO");
    reveal_strlit("SIGPWR");
    reveal_strlit("SIGSYS");
    reveal_strlit("SIGEMT");
    reveal_strlit("SIGINFO");
}

/// Different signals have different names.
pub proof fn law_signal_names_differ(a: Signal, b: Signal)
    requires
        a.spec_name() == b.spec_name(),
    ensures
        a == b,
{
    lemma_name_key(a);
    lemma_name_key(b);
}

pub proof fn lemma_between(a: Seq<char>, x: Seq<char>, y: Seq<char>, z: Seq<char>)
    requires
        a + x + z == a + y + z,
    ensures
        x == y,
{
    assert((a + x + z).len() == a.len() + x.len() + z.len());
    assert((a + y + z).len() == a.len() + y.len() + z.len());
    assert forall|i: int| 0 <= i < x.len() implies x[i] == y[i] by {
        assert((a + x + z)[a.len() + i] == x[i]);
        assert((a + y + z)[a.len() + i] == y[i]);
    }
    assert(x =~= y);
}

/// From what is shown of a status it can be told which status it is.
pub proof fn law_status_texts_differ(a: ExitStatus, b: ExitStatus)
    requires
        status_text(a) == status_text(b),
    ensures
        a == b,
{
    reveal_strlit("Success");
    reveal_strlit("Error(Unix(Status(");
    reveal_strlit("Error(Unix(Signal(");
    reveal_strlit("Error(Windows(");
    reveal_strlit("Error(Indeterminate)");
    reveal_strlit(")))");
    reveal_strlit("))");
    let (ta, tb) = (status_text(a), status_text(b));
    assert(ta[0] == tb[0]);
    if let (ExitStatus::Error(x), ExitStatus::Error(y)) = (a, b) {
        lemma_text_start(x);
        lemma_text_start(y);
        assert(ta[6] == tb[6]);
        match (x, y) {
            (ExitStatusError::Unix(u), ExitStatusError::Unix(v)) => {
                assert(ta[12] == tb[12]);
                match (u, v) {
                    (ExitStatusUnix::Status(m), ExitStatusUnix::Status(n)) => {
                        lemma_between(
                            "Error(Unix(Status("@,
                            text::decimal_text(m as nat),
                            text::decimal_text(n as nat),
                            ")))"@,
                        );
                        text::lemma_decimal_text_reads_back(m as nat);
                        text::lemma_decimal_text_reads_back(n as nat);
                    },
                    (ExitStatusUnix::Signal(m), ExitStatusUnix::Signal(n)) => {
                        lemma_between(
                            "Error(Unix(Signal("@,
                            m.spec_name(),
                            n.spec_name(),
                            ")))"@,
                        );
                        law_signal_names_differ(m, n);
                    },
                    _ => {},
                }
            },
            (ExitStatusError::Windows(m), ExitStatusError::Windows(n)) => {
                lemma_between(
                    "Error(Windows("@,
                    text::decimal_text(m as nat),
                    text::decimal_text(n as nat),
                    "))"@,
                );
                text::lemma_decimal_text_reads_back(m as nat);
                text::lemma_decimal_text_reads_back(n as nat);
            },
            _ => {},
        }
    }
}

proof fn lemma_text_start(error: ExitStatusError)
    ensures
        ({
            let text = status_text(ExitStatus::Error(error));
            &&& text.len() > 12
            &&& text[0] == 'E'
            &&& text[6] == (match error {
                ExitStatusError::Unix(_) => 'U',
                ExitStatusError::Windows(_) => 'W',
                ExitStatusError::Indeterminate => 'I',
            })
            &&& error matches ExitStatusError::Unix(u) ==> text[12] == (match u {
                ExitStatusUnix::Status(_) => 't',
                ExitStatusUnix::Signal(_) => 'i',
            })
        }),
{
    reveal_strlit("Error(Unix(Status(");
    reveal_strlit("Error(Unix(Signal(");
    reveal_strlit("Error(Windows(");
    reveal_strlit("Error(Indeterminate)");
}

/// The code with which a program ends tells how its processes did: a status is
/// passed on as it is, and a signal by its number above a hundred and twenty-eight.
pub proof fn law_codes_tell_the_end(s: u8, signal: Signal)
    ensures
        exit_code(ExitStatus::Error(ExitStatusError::Unix(ExitStatusUnix::Status(s)))) == s,
        exit_code(ExitStatus::Success) == 0,
        exit_code(ExitStatus::Error(ExitStatusError::Indeterminate)) == 101,
        signal.spec_number() matches Some(n) ==> exit_code(
            ExitStatus::Error(ExitStatusError::Unix(ExitStatusUnix::Signal(signal))),
        ) == n + 128 && 0 < n < 128,
{
}

/// Processes that ended in different ways have no certain status between them,
/// and it stays so whatever others do.
pub proof fn law_different_ends_are_indeterminate(a: ExitStatus, b: ExitStatus, c: ExitStatus)
    requires
        a != b,
    ensures
        combined(a, b) == ExitStatus::Error(ExitStatusError::Indeterminate),
        combined(combined(a, b), c) == combined(a, b),
{
}

/// Adding statuses is a success exactly if both are, gives the same end that both had,
/// and of different ends gives one that is neither's alone.
pub proof fn law_sums_of_statuses(a: ExitStatus, b: ExitStatus)
    ensures
        AddSpec::add_spec(a, b) == ExitStatus::Success <==> a == ExitStatus::Success && b
            == ExitStatus::Success,
        AddSpec::add_spec(a, a) == a,
        AddSpec::add_spec(a, b) == AddSpec::add_spec(b, a),
        a != b ==> AddSpec::add_spec(a, b) == ExitStatus::Error(ExitStatusError::Indeterminate),
{
}

} // verus!
