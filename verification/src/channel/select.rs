//! One of several operations that can go ahead.

use crate::rand_stream::Rand;
use vstd::prelude::*;

verus! {

/// What came of trying to pick one of several operations.
pub enum Selected<T> {
    /// This one, with the others in their order.
    Picked(T, Vec<T>),
    /// None can go ahead; all of them in their order.
    Blocked(Vec<T>),
}

/// `items` without the one at `i`.
pub open spec fn without<T>(items: Seq<T>, i: int) -> Seq<T> {
    items.take(i) + items.skip(i + 1)
}

/// Picks at random one of the operations that can go ahead, each with the same
/// chance, and gives where it stands. `None` if none can.
pub fn pick(available: &Vec<bool>) -> (r: Option<usize>)
    ensures
        match r {
            Some(i) => i < available.len() && available@[i as int],
            None => forall|i: int| 0 <= i < available.len() ==> !#[trigger] available@[i],
        },
{
    let mut rand: Rand<usize> = Rand::new();
    for i in 0..available.len()
        invariant
            rand.wf(),
            rand.pushed() <= i,
            rand.kept() matches Some(k) ==> k < i && available@[k as int],
            rand.kept() is None ==> forall|j: int| 0 <= j < i ==> !#[trigger] available@[j],
    {
        if available[i] {
            rand.push(i);
        }
    }
    rand.get()
}

/// Takes the operation at `i` out of several.
pub fn take_out<T>(items: Vec<T>, i: usize) -> (r: (T, Vec<T>))
    requires
        i < items.len(),
    ensures
        r.0 == items@[i as int],
        r.1@ == without(items@, i as int),
{
    let ghost all = items@;
    let mut items = items;
    let item = items.remove(i);
    assert(items@ =~= without(all, i as int));
    (item, items)
}

/// Picks at random one of the operations that can go ahead. `available` says of
/// each whether it can.
pub fn select<T>(items: Vec<T>, available: &Vec<bool>) -> (r: Selected<T>)
    requires
        items.len() == available.len(),
    ensures
        match r {
            Selected::Picked(item, rest) => exists|i: int|
                0 <= i < items.len() && #[trigger] available@[i] && item == items@[i] && rest@
                    == without(items@, i),
            Selected::Blocked(rest) => rest@ == items@ && forall|i: int|
                0 <= i < available.len() ==> !#[trigger] available@[i],
        },
{
    match pick(available) {
        Some(i) => {
            let (item, rest) = take_out(items, i);
            assert(available@[i as int]);
            Selected::Picked(item, rest)
        },
        None => Selected::Blocked(items),
    }
}

/// What came of one turn of running all of several operations.
pub enum Turn<T> {
    /// There is none any more.
    Done,
    /// One of them is to run now, and the others after it.
    Goes(T, Vec<T>),
    /// None can go ahead yet; all of them in their order.
    Waits(Vec<T>),
}

/// One turn of running all of several operations: picks one that can go ahead,
/// until there is none any more. `available` says of each whether it can.
pub fn run<T>(items: Vec<T>, available: &Vec<bool>) -> (r: Turn<T>)
    requires
        items.len() == available.len(),
    ensures
        match r {
            Turn::Done => items.len() == 0,
            Turn::Goes(item, rest) => exists|i: int|
                0 <= i < items.len() && #[trigger] available@[i] && item == items@[i] && rest@
                    == without(items@, i),
            Turn::Waits(rest) => items.len() > 0 && rest@ == items@ && forall|i: int|
                0 <= i < available.len() ==> !#[trigger] available@[i],
        },
{
    if items.len() == 0 {
        return Turn::Done;
    }
    match select(items, available) {
        Selected::Picked(item, rest) => Turn::Goes(item, rest),
        Selected::Blocked(rest) => Turn::Waits(rest),
    }
}

/// Each pick leaves one operation less, so that all of several operations have
/// run after as many picks.
pub proof fn law_each_pick_leaves_one_less<T>(items: Seq<T>, i: int)
    requires
        0 <= i < items.len(),
    ensures
        without(items, i).len() == items.len() - 1,
        without(items, i).insert(i, items[i]) == items,
{
    assert(without(items, i).insert(i, items[i]) =~= items);
}

} // verus!
