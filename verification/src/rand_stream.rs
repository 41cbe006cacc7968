//! One item out of a stream, each with the same chance.

use vstd::prelude::*;

verus! {

/// Keeps one of the items that have been pushed. Every item has the same chance
/// of being the one that is kept.
#[derive(Debug)]
pub struct Rand<T> {
    res: Option<T>,
    count: usize,
}

/// `rand::Rng::gen_range` on the thread's generator gives a number from zero up
/// to, and not including, `n`.
#[verifier::external_body]
fn draw_below(n: usize) -> (r: usize)
    requires
        n > 0,
    ensures
        r < n,
{
    rand::Rng::gen_range(&mut rand::thread_rng(), 0, n)
}

/// What is kept after `items` have been pushed with `draws`: the last item whose
/// draw was zero.
pub open spec fn kept<T>(items: Seq<T>, draws: Seq<usize>) -> Option<T>
    decreases items.len(),
{
    if items.len() == 0 {
        None
    } else if draws.last() == 0 {
        Some(items.last())
    } else {
        kept(items.drop_last(), draws.drop_last())
    }
}

/// Once something has been pushed, one of the items pushed is kept: the draw for
/// the first item can only be zero.
pub proof fn law_an_item_is_kept<T>(items: Seq<T>, draws: Seq<usize>)
    requires
        items.len() == draws.len(),
        items.len() > 0,
        forall|i: int| 0 <= i < draws.len() ==> (#[trigger] draws[i]) <= i,
    ensures
        kept(items, draws) matches Some(x) && items.contains(x),
    decreases items.len(),
{
    if draws.last() == 0 {
        assert(items[items.len() - 1] == items.last());
    } else {
        assert(draws[0] <= 0);
        law_an_item_is_kept(items.drop_last(), draws.drop_last());
        let x = kept(items, draws).unwrap();
        let i = choose|i: int| 0 <= i < items.len() - 1 && items.drop_last()[i] == x;
        assert(items[i] == x);
    }
}

impl<T> Rand<T> {
    /// The item that is kept so far.
    pub closed spec fn kept(&self) -> Option<T> {
        self.res
    }

    /// How many items have been pushed.
    pub closed spec fn pushed(&self) -> nat {
        self.count as nat
    }

    /// Something is kept once anything has been pushed.
    pub open spec fn wf(&self) -> bool {
        self.kept() is Some <==> self.pushed() > 0
    }

    /// No items yet.
    pub fn new() -> (r: Rand<T>)
        ensures
            r.wf(),
            r.kept() is None,
            r.pushed() == 0,
    {
        Rand { res: None, count: 0 }
    }

    /// Adds an item, with a draw of its own below the number of items.
    pub fn push(&mut self, x: T)
        requires
            old(self).wf(),
            old(self).pushed() < usize::MAX,
        ensures
            final(self).wf(),
            final(self).pushed() == old(self).pushed() + 1,
            final(self).kept() == old(self).kept() || final(self).kept() == Some(x),
            old(self).pushed() == 0 ==> final(self).kept() == Some(x),
    {
        let draw: usize = draw_below(self.count + 1);
        self.push_drawn(x, draw);
    }

    /// Adds an item. It replaces the one that is kept if `draw` is zero.
    pub fn push_drawn(&mut self, x: T, draw: usize)
        requires
            old(self).wf(),
            old(self).pushed() < usize::MAX,
            draw <= old(self).pushed(),
        ensures
            final(self).wf(),
            final(self).pushed() == old(self).pushed() + 1,
            final(self).kept() == (if draw == 0 {
                Some(x)
            } else {
                old(self).kept()
            }),
    {
        self.count = self.count + 1;
        if draw == 0 {
            self.res = Some(x);
        }
    }

    /// The item that was kept; `None` if nothing was pushed.
    pub fn get(self) -> (r: Option<T>)
        ensures
            r == self.kept(),
    {
        self.res
    }
}

impl<T> Default for Rand<T> {
    fn default() -> (r: Rand<T>)
        ensures
            r.wf(),
            r.kept() is None,
            r.pushed() == 0,
    {
        Rand::new()
    }
}

/// The item that is kept is the last at which nothing was drawn. As each of the first
/// `n` items is drawn for below `n`, all have the same chance to be it.
pub proof fn law_the_last_nothing_decides<T>(items: Seq<T>, draws: Seq<usize>, i: int)
    requires
        items.len() == draws.len(),
        0 <= i < items.len(),
        draws[i] == 0,
        forall|j: int| i < j < draws.len() ==> #[trigger] draws[j] != 0,
    ensures
        kept(items, draws) == Some(items[i]),
    decreases items.len(),
{
    if i < items.len() - 1 {
        assert(draws[draws.len() - 1] != 0);
        assert forall|j: int| i < j < draws.drop_last().len() implies #[trigger] draws.drop_last()[j]
            != 0 by {
            assert(draws[j] != 0);
        }
        law_the_last_nothing_decides(items.drop_last(), draws.drop_last(), i);
    }
}

} // verus!
