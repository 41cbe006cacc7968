//! How processes end, and how a program of several does.

use crate::exit::Signal;
use crate::text::{decimal_text, format_decimal};
use vstd::prelude::*;

verus! {

/// How a process ended.
#[derive(Copy, Clone, PartialEq, Eq, Debug, Structural)]
pub enum Exited {
    Code(u8),
    Signal(Signal),
}

/// The first failure among the processes of a program.
#[derive(Copy, Clone, PartialEq, Eq, Debug)]
pub struct FirstFailure {
    pub kept: Option<Exited>,
}

/// The first failure once one more process ended.
pub open spec fn kept_after(kept: Option<Exited>, exited: Exited) -> Option<Exited> {
    if exited != Exited::Code(0) && kept is None {
        Some(exited)
    } else {
        kept
    }
}

/// The first failure once all these processes ended.
pub open spec fn kept_after_all(exits: Seq<Exited>) -> Option<Exited>
    decreases exits.len(),
{
    if exits.len() == 0 {
        None
    } else {
        kept_after(kept_after_all(exits.drop_last()), exits.last())
    }
}

/// The code with which a program ends.
pub open spec fn program_code(kept: Option<Exited>) -> int {
    match kept {
        None => 0,
        Some(Exited::Code(code)) => code as int,
        Some(Exited::Signal(_)) => 1,
    }
}

/// How an end is shown.
pub open spec fn exited_as(exited: Exited) -> Seq<char> {
    match exited {
        Exited::Code(code) => "Left("@ + decimal_text(code as nat) + ")"@,
        Exited::Signal(signal) => "Right("@ + signal.spec_name() + ")"@,
    }
}

impl Exited {
    /// How an end is shown.
    pub fn to_text(&self) -> (r: String)
        ensures
            r@ == exited_as(*self),
    {
        match *self {
            Exited::Code(code) => String::from_str("Left(").concat(
                format_decimal(code as u64).as_str(),
            ).concat(")"),
            Exited::Signal(signal) => String::from_str("Right(").concat(signal.name()).concat(")"),
        }
    }
}

impl FirstFailure {
    /// No failure yet.
    pub fn new() -> (r: FirstFailure)
        ensures
            r.kept is None,
    {
        FirstFailure { kept: None }
    }

    /// Takes note of how one more process ended.
    pub fn add(&mut self, exited: Exited)
        ensures
            final(self).kept == kept_after(old(self).kept, exited),
    {
        let failed = match exited {
            Exited::Code(code) => code != 0,
            Exited::Signal(_) => true,
        };
        if failed && self.kept.is_none() {
            self.kept = Some(exited);
        }
    }

    /// The code with which the program ends.
    pub fn code(&self) -> (r: i32)
        ensures
            r == program_code(self.kept),
    {
        match self.kept {
            None => 0,
            Some(Exited::Code(code)) => code as i32,
            Some(Exited::Signal(_)) => 1,
        }
    }
}

/// A program ends with zero exactly if each of its processes exited with zero;
/// otherwise the process that failed first decides.
pub proof fn law_first_failure_counts(exits: Seq<Exited>)
    ensures
        program_code(kept_after_all(exits)) == 0 <==> forall|i: int|
            0 <= i < exits.len() ==> #[trigger] exits[i] == Exited::Code(0),
        kept_after_all(exits) matches Some(failure) ==> exists|i: int|
            0 <= i < exits.len() && #[trigger] exits[i] == failure && failure != Exited::Code(0)
                && forall|j: int| 0 <= j < i ==> #[trigger] exits[j] == Exited::Code(0),
    decreases exits.len(),
{
    if exits.len() > 0 {
        let first = exits.drop_last();
        law_first_failure_counts(first);
        let n = first.len() as int;
        assert(exits[n] == exits.last());
        assert forall|j: int| 0 <= j < n implies #[trigger] first[j] == exits[j] by {}
        if kept_after_all(first) is Some {
            let failure = kept_after_all(first)->0;
            let i = choose|i: int|
                0 <= i < first.len() && #[trigger] first[i] == failure && failure != Exited::Code(0)
                    && forall|j: int| 0 <= j < i ==> #[trigger] first[j] == Exited::Code(0);
            assert(exits[i] == failure);
            assert forall|j: int| 0 <= j < i implies #[trigger] exits[j] == Exited::Code(0) by {
                assert(first[j] == exits[j]);
            }
        } else {
            assert(program_code(kept_after_all(first)) == 0);
            assert forall|j: int| 0 <= j < n implies #[trigger] exits[j] == Exited::Code(0) by {
                assert(first[j] == exits[j]);
            }
        }
    }
}

/// A program ends with the code of the process that failed first, and with one if a
/// signal ended that process; whatever others do later changes nothing.
pub proof fn law_later_failures_do_not_count(exits: Seq<Exited>, later: Exited, code: u8)
    ensures
        kept_after_all(exits) is Some ==> kept_after_all(exits.push(later)) == kept_after_all(
            exits,
        ),
        kept_after_all(exits) is None && later == Exited::Code(code) ==> program_code(
            kept_after_all(exits.push(later)),
        ) == code,
        kept_after_all(exits) is None && later is Signal ==> program_code(
            kept_after_all(exits.push(later)),
        ) == 1,
{
    assert(exits.push(later).drop_last() =~= exits);
}

/// From what is shown of an end it can be told which end it was.
pub proof fn law_ends_are_told_apart(a: Exited, b: Exited)
    requires
        exited_as(a) == exited_as(b),
    ensures
        a == b,
{
    reveal_strlit("Left(");
    reveal_strlit("Right(");
    reveal_strlit(")");
    let (ta, tb) = (exited_as(a), exited_as(b));
    assert(ta[0] == tb[0]);
    match (a, b) {
        (Exited::Code(m), Exited::Code(n)) => {
            crate::exit::lemma_between(
                "Left("@,
                decimal_text(m as nat),
                decimal_text(n as nat),
                ")"@,
            );
            crate::text::law_numbers_are_told_apart(m as nat, n as nat);
        },
        (Exited::Signal(m), Exited::Signal(n)) => {
            crate::exit::lemma_between("Right("@, m.spec_name(), n.spec_name(), ")"@);
            crate::exit::law_signal_names_differ(m, n);
        },
        _ => {},
    }
}

} // verus!
