//! Which file descriptors a new process finds, and how they get there.

use crate::text::{
    chars, decimal, decimal_text, digits_end, find_digits_end, is_digit,
    lemma_decimal_text_reads_back, lemma_digits_end_bounds, lemma_digits_end_unique, parse_decimal,
};
use vstd::prelude::*;

verus! {

/// Where a process finds the socket at which it listens.
pub const LISTENER_FD: i32 = 3;

/// Where a process finds its argument.
pub const ARG_FD: i32 = 4;

/// Where a process has its connection to the scheduler, once it has read its
/// argument.
pub const SCHEDULER_FD: i32 = 4;

/// Where a process reports to its companion.
pub const MONITOR_FD: i32 = 5;

/// Where a process finds the first socket that was bound for it.
pub const BOUND_FD_START: i32 = 5;

/// Where a program that is asked for its requirements answers.
pub const RECCE_FD: i32 = 3;

/// Where a program that is asked for its requirements finds its own binary.
pub const RECCE_BINARY_FD: i32 = 4;

/// Descriptors from here on are not looked at.
pub const FD_LIMIT: i32 = 1024;

/// One descriptor that is to become another.
#[derive(Copy, Clone, PartialEq, Eq, Debug, Structural)]
pub struct Move {
    pub from: i32,
    pub to: i32,
}

/// Whether the move at `i` can be made now: it is not made yet, and no
/// descriptor that is still to be moved, or was moved, stands in its way.
pub open spec fn movable(moves: Seq<Move>, i: int) -> bool {
    &&& 0 <= i < moves.len()
    &&& moves[i].from != moves[i].to
    &&& forall|j: int| 0 <= j < moves.len() ==> (#[trigger] moves[j]).from != moves[i].to
}

/// Whether the move at `i` is the first that can be made now.
pub open spec fn first_movable(moves: Seq<Move>, i: int) -> bool {
    movable(moves, i) && forall|j: int| 0 <= j < i ==> !#[trigger] movable(moves, j)
}

/// Whether a move can be made now.
pub open spec fn any_movable(moves: Seq<Move>) -> bool {
    exists|i: int| first_movable(moves, i)
}

/// The first move that can be made now.
pub open spec fn next_move(moves: Seq<Move>) -> int {
    choose|i: int| first_movable(moves, i)
}

/// What is left to do when the move at `i` is made.
pub open spec fn moved(moves: Seq<Move>, i: int) -> Seq<Move> {
    moves.update(i, Move { from: moves[i].to, to: moves[i].to })
}

/// Whether every descriptor is where it is to be.
pub open spec fn settled(moves: Seq<Move>) -> bool {
    forall|i: int| 0 <= i < moves.len() ==> (#[trigger] moves[i]).from == moves[i].to
}

/// How many descriptors are not yet where they are to be.
pub open spec fn pending(moves: Seq<Move>) -> nat
    decreases moves.len(),
{
    if moves.len() == 0 {
        0
    } else {
        pending(moves.drop_last()) + if moves.last().from != moves.last().to {
            1nat
        } else {
            0
        }
    }
}

proof fn lemma_pending(moves: Seq<Move>, i: int)
    requires
        0 <= i < moves.len(),
        moves[i].from != moves[i].to,
    ensures
        pending(moved(moves, i)) + 1 == pending(moves),
    decreases moves.len(),
{
    let after = moved(moves, i);
    if i == moves.len() - 1 {
        assert(after.drop_last() =~= moves.drop_last());
    } else {
        lemma_pending(moves.drop_last(), i);
        assert(after.drop_last() =~= moved(moves.drop_last(), i));
    }
}

/// The moves in an order in which they can be made, always the first that can be
/// made next; `None` if some stand in each other's way for ever.
pub open spec fn ordered(moves: Seq<Move>) -> Option<Seq<Move>>
    decreases pending(moves) via ordered_decreases
{
    if any_movable(moves) {
        let i = next_move(moves);
        match ordered(moved(moves, i)) {
            Some(rest) => Some(seq![moves[i]] + rest),
            None => None,
        }
    } else if settled(moves) {
        Some(seq![])
    } else {
        None
    }
}

#[via_fn]
proof fn ordered_decreases(moves: Seq<Move>) {
    if any_movable(moves) {
        let i = next_move(moves);
        assert(first_movable(moves, i));
        lemma_pending(moves, i);
    }
}

/// Where the first move stands that can be made now.
fn find_movable(moves: &Vec<Move>) -> (r: Option<usize>)
    ensures
        match r {
            Some(i) => i == next_move(moves@) && any_movable(moves@) && i < moves.len()
                && first_movable(moves@, i as int),
            None => !any_movable(moves@),
        },
{
    for i in 0..moves.len()
        invariant
            forall|k: int| 0 <= k < i ==> !#[trigger] movable(moves@, k),
    {
        let mut free = moves[i].from != moves[i].to;
        for j in 0..moves.len()
            invariant
                i < moves.len(),
                free ==> moves@[i as int].from != moves@[i as int].to,
                free ==> forall|k: int|
                    0 <= k < j ==> (#[trigger] moves@[k]).from != moves@[i as int].to,
                !free ==> !movable(moves@, i as int),
        {
            if moves[j].from == moves[i].to {
                free = false;
            }
        }
        if free {
            assert(first_movable(moves@, i as int));
            proof {
                let k = next_move(moves@);
                assert(first_movable(moves@, k));
                if k < i {
                    assert(!movable(moves@, k));
                }
                if i < k {
                    assert(!movable(moves@, i as int));
                }
            }
            return Some(i);
        }
    }
    None
}

fn is_settled(moves: &Vec<Move>) -> (r: bool)
    ensures
        r == settled(moves@),
{
    for i in 0..moves.len()
        invariant
            forall|k: int| 0 <= k < i ==> (#[trigger] moves@[k]).from == moves@[k].to,
    {
        if moves[i].from != moves[i].to {
            return false;
        }
    }
    true
}

/// In which order descriptors are moved so that none is overwritten before it
/// was moved itself. `None` if there is no such order because some of them are
/// to change places.
#[verifier::loop_isolation(false)]
pub fn move_fds(fds: Vec<Move>) -> (r: Option<Vec<Move>>)
    ensures
        match r {
            Some(order) => ordered(fds@) == Some(order@),
            None => ordered(fds@) is None,
        },
{
    let ghost all = fds@;
    let mut fds = fds;
    let mut order: Vec<Move> = Vec::new();
    loop
        invariant
            match ordered(fds@) {
                Some(rest) => ordered(all) == Some(order@ + rest),
                None => ordered(all) is None,
            },
        decreases pending(fds@),
    {
        match find_movable(&fds) {
            Some(i) => {
                let next = fds[i];
                proof {
                    lemma_pending(fds@, i as int);
                    match ordered(moved(fds@, i as int)) {
                        Some(rest) => {
                            assert(order@ + (seq![next] + rest) =~= order@.push(next) + rest);
                        },
                        None => {},
                    }
                }
                let ghost before = fds@;
                fds.set(i, Move { from: next.to, to: next.to });
                assert(fds@ =~= moved(before, i as int));
                order.push(next);
            },
            None => {
                return if is_settled(&fds) {
                    assert(order@ + Seq::<Move>::empty() =~= order@);
                    Some(order)
                } else {
                    None
                };
            },
        }
    }
}

/// What is open at which descriptor after `next` is made.
pub open spec fn after_move<F>(open: Map<i32, F>, next: Move) -> Map<i32, F> {
    open.insert(next.to, open[next.from]).remove(next.from)
}

/// What is open at which descriptor after all of `order` is done.
pub open spec fn after_moves<F>(open: Map<i32, F>, order: Seq<Move>) -> Map<i32, F>
    decreases order.len(),
{
    if order.len() == 0 {
        open
    } else {
        after_moves(after_move(open, order[0]), order.skip(1))
    }
}

/// Whether each descriptor that is to be moved is open, and stands there once.
pub open spec fn sources<F>(open: Map<i32, F>, moves: Seq<Move>) -> bool {
    &&& forall|i: int| 0 <= i < moves.len() ==> open.dom().contains((#[trigger] moves[i]).from)
    &&& forall|i: int, j: int|
        0 <= i < j < moves.len() ==> (#[trigger] moves[i]).from != (#[trigger] moves[j]).from
}

/// Whether descriptor `fd` has nothing to do with the moves.
pub open spec fn apart(moves: Seq<Move>, fd: i32) -> bool {
    forall|i: int|
        0 <= i < moves.len() ==> (#[trigger] moves[i]).from != fd && moves[i].to != fd
}

proof fn lemma_one_move<F>(open: Map<i32, F>, moves: Seq<Move>)
    requires
        sources(open, moves),
        any_movable(moves),
    ensures
        ({
            let i = next_move(moves);
            let then = after_move(open, moves[i]);
            let left = moved(moves, i);
            &&& 0 <= i < moves.len()
            &&& pending(left) < pending(moves)
            &&& sources(then, left)
            &&& forall|j: int|
                0 <= j < moves.len() ==> then[(#[trigger] left[j]).from] == open[moves[j].from]
                    && left[j].to == moves[j].to
        }),
{
    let i = next_move(moves);
    assert(first_movable(moves, i));
    lemma_pending(moves, i);
    let left = moved(moves, i);
    let then = after_move(open, moves[i]);
    assert forall|j: int| 0 <= j < left.len() implies then.dom().contains(
        (#[trigger] left[j]).from,
    ) && then[left[j].from] == open[moves[j].from] by {
        if j != i {
            assert(left[j] == moves[j]);
            assert(moves[j].from != moves[i].to);
        }
    }
    assert forall|j: int, k: int| 0 <= j < k < left.len() implies (#[trigger] left[j]).from != (
    #[trigger] left[k]).from by {
        assert(moves[j].from != moves[k].from);
        assert(moves[j].from != moves[i].to);
        assert(moves[k].from != moves[i].to);
    }
}

proof fn lemma_order_steps<F>(open: Map<i32, F>, moves: Seq<Move>)
    requires
        any_movable(moves),
        ordered(moves) is Some,
    ensures
        ordered(moved(moves, next_move(moves))) is Some,
        after_moves(open, ordered(moves)->0) == after_moves(
            after_move(open, moves[next_move(moves)]),
            ordered(moved(moves, next_move(moves)))->0,
        ),
{
    let i = next_move(moves);
    let order = ordered(moves)->0;
    assert(order[0] == moves[i]);
    assert(order.skip(1) =~= ordered(moved(moves, i))->0);
}

/// Moved in this order, each file ends up where it is to be: none is lost on the
/// way.
pub proof fn law_every_file_arrives<F>(open: Map<i32, F>, moves: Seq<Move>)
    requires
        sources(open, moves),
        ordered(moves) is Some,
    ensures
        forall|i: int|
            0 <= i < moves.len() ==> {
                let end = after_moves(open, ordered(moves)->0);
                end.dom().contains((#[trigger] moves[i]).to) && end[moves[i].to]
                    == open[moves[i].from]
            },
    decreases pending(moves),
{
    if any_movable(moves) {
        let i = next_move(moves);
        let left = moved(moves, i);
        let then = after_move(open, moves[i]);
        lemma_one_move(open, moves);
        lemma_order_steps(open, moves);
        law_every_file_arrives(then, left);
        let end = after_moves(open, ordered(moves)->0);
        assert forall|j: int| 0 <= j < moves.len() implies end.dom().contains(
            (#[trigger] moves[j]).to,
        ) && end[moves[j].to] == open[moves[j].from] by {
            assert(left[j].to == moves[j].to);
        }
    } else {
        assert(after_moves(open, ordered(moves)->0) == open);
    }
}

/// A descriptor that has nothing to do with the moves stays as it was.
pub proof fn law_others_stay<F>(open: Map<i32, F>, moves: Seq<Move>, fd: i32)
    requires
        sources(open, moves),
        ordered(moves) is Some,
        apart(moves, fd),
    ensures
        after_moves(open, ordered(moves)->0).dom().contains(fd) <==> open.dom().contains(fd),
        open.dom().contains(fd) ==> after_moves(open, ordered(moves)->0)[fd] == open[fd],
    decreases pending(moves),
{
    if any_movable(moves) {
        let i = next_move(moves);
        let left = moved(moves, i);
        let then = after_move(open, moves[i]);
        lemma_one_move(open, moves);
        lemma_order_steps(open, moves);
        assert(moves[i].from != fd && moves[i].to != fd);
        assert forall|j: int| 0 <= j < left.len() implies (#[trigger] left[j]).from != fd
            && left[j].to != fd by {
            assert(moves[j].from != fd && moves[j].to != fd);
        }
        law_others_stay(then, left, fd);
    } else {
        assert(after_moves(open, ordered(moves)->0) == open);
    }
}

/// There is an order unless descriptors stand in each other's way: where nothing
/// can be moved although something is not in its place, each place that is
/// wanted is taken.
pub proof fn law_stuck_only_in_each_others_way(moves: Seq<Move>)
    requires
        !any_movable(moves),
    ensures
        ordered(moves) is Some <==> settled(moves),
        forall|i: int|
            0 <= i < moves.len() && (#[trigger] moves[i]).from != moves[i].to ==> exists|j: int|
                0 <= j < moves.len() && (#[trigger] moves[j]).from == moves[i].to,
{
    assert forall|i: int| 0 <= i < moves.len() && (#[trigger] moves[i]).from != moves[i].to implies exists|
        j: int,
    |
        0 <= j < moves.len() && (#[trigger] moves[j]).from == moves[i].to by {
        if forall|j: int| 0 <= j < moves.len() ==> (#[trigger] moves[j]).from != moves[i].to {
            assert(movable(moves, i));
            lemma_some_first(moves, i);
        }
    }
}

proof fn lemma_some_first(moves: Seq<Move>, i: int)
    requires
        movable(moves, i),
    ensures
        any_movable(moves),
    decreases i,
{
    if exists|j: int| 0 <= j < i && #[trigger] movable(moves, j) {
        lemma_some_first(moves, choose|j: int| 0 <= j < i && #[trigger] movable(moves, j));
    } else {
        assert(first_movable(moves, i));
    }
}

/// The number that a name says: digits, maybe behind a sign.
pub open spec fn number_named(name: Seq<char>) -> Option<int> {
    let signed = name.len() > 0 && (name[0] == '+' || name[0] == '-');
    let digits = if signed {
        name.skip(1)
    } else {
        name
    };
    let size = decimal(digits);
    if digits.len() == 0 || digits_end(digits, 0) != digits.len() {
        None
    } else if name[0] == '-' {
        Some(-(size as int))
    } else {
        Some(size as int)
    }
}

/// Which descriptor an entry of the directory of open descriptors stands for;
/// `None` if for none, or for that of the directory itself.
pub open spec fn listed(name: Seq<char>, directory: i32) -> Option<i32> {
    match number_named(name) {
        Some(n) => if i32::MIN <= n <= i32::MAX && n != directory {
            Some(n as i32)
        } else {
            None
        },
        None => None,
    }
}

/// Which descriptor an entry of the directory of open descriptors stands for;
/// `None` if for none, or for that of the directory itself.
pub fn listed_fd(name: &str, directory: i32) -> (r: Option<i32>)
    ensures
        r == listed(name@, directory),
{
    let cs = chars(name);
    if cs.len() == 0 {
        return None;
    }
    let from: usize = if cs[0] == '+' || cs[0] == '-' {
        1
    } else {
        0
    };
    let ghost digits = cs@.skip(from as int);
    proof {
        assert(cs@.skip(0) =~= cs@);
        lemma_digits_end_bounds(digits, 0);
        lemma_digits_end_bounds(cs@, from as int);
    }
    let end: usize = find_digits_end(&cs, from);
    proof {
        assert forall|i: int| 0 <= i < end - from implies is_digit(#[trigger] digits[i]) by {
            assert(digits[i] == cs@[i + from]);
        }
        if end < cs.len() {
            assert(digits[end - from] == cs@[end as int]);
        }
        lemma_digits_end_unique(digits, 0, end - from);
    }
    if from == cs.len() || end != cs.len() {
        return None;
    }
    assert(cs@.subrange(from as int, end as int) =~= digits);
    let size: u64 = match parse_decimal(&cs, from, end) {
        Some(size) => size,
        None => {
            return None;
        },
    };
    if size > 0x8000_0000 || (size == 0x8000_0000 && cs[0] != '-') {
        return None;
    }
    let n: i64 = if cs[0] == '-' {
        -(size as i64)
    } else {
        size as i64
    };
    let fd: i32 = n as i32;
    if fd == directory {
        None
    } else {
        Some(fd)
    }
}

/// If no descriptor is to become one that another comes from, and no two are to
/// become the same, all can be moved; and each is moved once, if it is not in its
/// place, and not at all otherwise.
pub proof fn law_what_is_not_in_the_way_is_moved(moves: Seq<Move>)
    requires
        forall|i: int, j: int|
            #![trigger moves[i], moves[j]]
            0 <= i < moves.len() && 0 <= j < moves.len() && i != j ==> moves[i].to != moves[j].to
                && moves[i].to != moves[j].from,
    ensures
        ordered(moves) is Some,
        ordered(moves)->0.len() == pending(moves),
    decreases pending(moves),
{
    if any_movable(moves) {
        let i = next_move(moves);
        assert(first_movable(moves, i));
        lemma_pending(moves, i);
        let left = moved(moves, i);
        assert forall|j: int, k: int|
            #![trigger left[j], left[k]]
            0 <= j < left.len() && 0 <= k < left.len() && j != k implies left[j].to != left[k].to
            && left[j].to != left[k].from by {
            assert(moves[j].to != moves[k].to);
            assert(moves[j].to != moves[k].from);
        }
        law_what_is_not_in_the_way_is_moved(left);
    } else {
        assert forall|i: int| 0 <= i < moves.len() implies (#[trigger] moves[i]).from
            == moves[i].to by {
            if moves[i].from != moves[i].to {
                assert(movable(moves, i));
                lemma_some_first(moves, i);
            }
        }
        lemma_none_pending(moves);
    }
}

proof fn lemma_none_pending(moves: Seq<Move>)
    requires
        settled(moves),
    ensures
        pending(moves) == 0,
    decreases moves.len(),
{
    if moves.len() > 0 {
        assert(moves[moves.len() - 1].from == moves[moves.len() - 1].to);
        assert forall|i: int| 0 <= i < moves.drop_last().len() implies (
        #[trigger] moves.drop_last()[i]).from == moves.drop_last()[i].to by {
            assert(moves[i].from == moves[i].to);
        }
        lemma_none_pending(moves.drop_last());
    }
}

/// Every number names its descriptor, but for that of the directory in which the
/// names were found, and nothing else does.
pub proof fn law_numbers_name_descriptors(n: u64, name: Seq<char>, at: int, directory: i32)
    requires
        1 <= at < name.len(),
        !is_digit(name[at]),
    ensures
        listed(decimal_text(n as nat), directory) == (if n <= 0x7fff_ffff && n != directory {
            Some(n as i32)
        } else {
            None
        }),
        listed(seq!['-'] + decimal_text(n as nat), directory) == (if n <= 0x8000_0000 && -n
            != directory {
            Some((-n) as i32)
        } else {
            None
        }),
        listed(seq!['+'] + decimal_text(n as nat), directory) == listed(
            decimal_text(n as nat),
            directory,
        ),
        listed(name, directory) is None,
        listed(seq![], directory) is None,
{
    let text = decimal_text(n as nat);
    lemma_decimal_text_reads_back(n as nat);
    lemma_digits_end_unique(text, 0, text.len() as int);
    assert((seq!['-'] + text).skip(1) =~= text);
    assert((seq!['+'] + text).skip(1) =~= text);
    assert(is_digit(text[0]));
    let signed = name[0] == '+' || name[0] == '-';
    let digits = if signed {
        name.skip(1)
    } else {
        name
    };
    let k = if signed {
        at - 1
    } else {
        at
    };
    assert(digits[k] == name[at]);
    lemma_digits_end_bounds(digits, 0);
    if digits_end(digits, 0) == digits.len() {
        assert(is_digit(digits[k]));
    }
}

/// The descriptors that a process finds stand one behind the other, after the three
/// that every process has.
pub proof fn law_agreed_descriptors_do_not_clash()
    ensures
        LISTENER_FD == 3,
        ARG_FD == LISTENER_FD + 1,
        BOUND_FD_START == ARG_FD + 1,
        SCHEDULER_FD == LISTENER_FD + 1,
        MONITOR_FD == SCHEDULER_FD + 1,
        RECCE_FD == 3,
        RECCE_BINARY_FD == RECCE_FD + 1,
        FD_LIMIT == 1024,
{
}

} // verus!
