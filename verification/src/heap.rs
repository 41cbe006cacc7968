//! An allocator with a limit: it hands out no more than a process was given.

use vstd::prelude::*;

verus! {

/// What stands for a limit that is not known yet.
pub const UNKNOWN: isize = isize::MIN;

/// An allocator `H` with a limit on what it may hand out.
#[derive(Clone, Debug)]
pub struct HAlloc<H> {
    pub inner: H,
    /// How many bytes may still be handed out, or `UNKNOWN`.
    pub left: isize,
}

/// What happens to memory: it is asked for and handed out or not, or it is given
/// back or not. `size` is by how much.
pub struct Change {
    pub grows: bool,
    pub size: int,
    /// Whether the allocator itself agreed.
    pub agreed: bool,
}

/// How many bytes may still be handed out after `change`.
pub open spec fn left_after(left: int, change: Change) -> int {
    if change.grows {
        if left >= change.size && change.agreed {
            left - change.size
        } else {
            left
        }
    } else if change.agreed {
        left + change.size
    } else {
        left
    }
}

/// How many bytes are handed out after `change`.
pub open spec fn used_after(left: int, used: int, change: Change) -> int {
    if change.grows {
        if left >= change.size && change.agreed {
            used + change.size
        } else {
            used
        }
    } else if change.agreed {
        used - change.size
    } else {
        used
    }
}

impl<H> HAlloc<H> {
    /// Whether the limit is known.
    pub open spec fn known(&self) -> bool {
        0 <= self.left
    }

    /// An allocator whose limit is not known yet.
    pub fn new(h: H) -> (r: HAlloc<H>)
        ensures
            r.inner == h,
            r.left == UNKNOWN,
    {
        HAlloc { inner: h, left: UNKNOWN }
    }

    /// Sets the limit to `heap_size`, unless there is one.
    pub fn init(&mut self, heap_size: usize)
        requires
            heap_size <= isize::MAX,
            old(self).left == UNKNOWN || old(self).known(),
        ensures
            final(self).inner == old(self).inner,
            final(self).left == (if old(self).left == UNKNOWN {
                heap_size as isize
            } else {
                old(self).left
            }),
            final(self).known(),
    {
        if self.left == UNKNOWN {
            self.left = heap_size as isize;
        }
    }

    /// Takes `size` bytes off what may be handed out, and says whether so much is
    /// left. If not, nothing is taken off.
    pub fn ask(&mut self, size: usize) -> (r: bool)
        requires
            old(self).known(),
            size <= isize::MAX,
        ensures
            final(self).inner == old(self).inner,
            r == (old(self).left >= size),
            final(self).left == left_after(
                old(self).left as int,
                Change { grows: true, size: size as int, agreed: true },
            ),
            final(self).known(),
    {
        let size: isize = size as isize;
        if self.left >= size {
            self.left -= size;
            true
        } else {
            false
        }
    }

    /// Puts `size` bytes back to what may be handed out.
    pub fn put_back(&mut self, size: usize)
        requires
            old(self).known(),
            old(self).left + size <= isize::MAX,
        ensures
            final(self).inner == old(self).inner,
            final(self).left == left_after(
                old(self).left as int,
                Change { grows: false, size: size as int, agreed: true },
            ),
            final(self).known(),
    {
        self.left += size as isize;
    }

    /// What is left once memory was asked for that the allocator handed out, if
    /// `agreed`, or did not. Before it was asked for, `size` bytes more were left.
    pub fn asked(&mut self, size: usize, agreed: bool)
        requires
            old(self).known(),
            agreed || old(self).left + size <= isize::MAX,
        ensures
            final(self).inner == old(self).inner,
            final(self).left == left_after(
                old(self).left + size,
                Change { grows: true, size: size as int, agreed },
            ),
            final(self).known(),
    {
        if !agreed {
            self.put_back(size);
        }
    }

    /// Asks for a piece of memory to change its size, and says whether so much
    /// is left. It always is, if the piece does not become larger.
    pub fn ask_resize(&mut self, old_size: usize, new_size: usize) -> (r: bool)
        requires
            old(self).known(),
            old_size <= isize::MAX,
            new_size <= isize::MAX,
        ensures
            final(self).inner == old(self).inner,
            r == (old(self).left >= new_size - old_size),
            final(self).left == (if new_size > old_size {
                left_after(
                    old(self).left as int,
                    Change { grows: true, size: new_size - old_size, agreed: true },
                )
            } else {
                old(self).left as int
            }),
            final(self).known(),
    {
        if new_size > old_size {
            self.ask(new_size - old_size)
        } else {
            true
        }
    }

    /// What is left once a piece of memory was asked to change its size and the
    /// allocator did so, if `agreed`, or did not.
    pub fn resized(&mut self, old_size: usize, new_size: usize, agreed: bool)
        requires
            old(self).known(),
            old_size <= isize::MAX,
            new_size <= isize::MAX,
            new_size > old_size && !agreed ==> old(self).left + (new_size - old_size)
                <= isize::MAX,
            new_size <= old_size && agreed ==> old(self).left + (old_size - new_size)
                <= isize::MAX,
        ensures
            final(self).inner == old(self).inner,
            final(self).left == (if new_size > old_size {
                left_after(
                    old(self).left + (new_size - old_size),
                    Change { grows: true, size: new_size - old_size, agreed },
                )
            } else {
                left_after(
                    old(self).left as int,
                    Change { grows: false, size: old_size - new_size, agreed },
                )
            }),
            final(self).known(),
    {
        if new_size > old_size {
            self.asked(new_size - old_size, agreed);
        } else if agreed {
            self.put_back(old_size - new_size);
        }
    }
}

/// What is left after some changes.
pub open spec fn left_after_all(left: int, changes: Seq<Change>) -> int
    decreases changes.len(),
{
    if changes.len() == 0 {
        left
    } else {
        left_after(left_after_all(left, changes.drop_last()), changes.last())
    }
}

/// What is handed out after some changes.
pub open spec fn used_after_all(left: int, used: int, changes: Seq<Change>) -> int
    decreases changes.len(),
{
    if changes.len() == 0 {
        used
    } else {
        used_after(
            left_after_all(left, changes.drop_last()),
            used_after_all(left, used, changes.drop_last()),
            changes.last(),
        )
    }
}

/// Whether no more is ever given back than is handed out.
pub open spec fn sound(left: int, used: int, changes: Seq<Change>) -> bool
    decreases changes.len(),
{
    changes.len() > 0 ==> {
        &&& sound(left, used, changes.drop_last())
        &&& changes.last().size >= 0
        &&& !changes.last().grows ==> changes.last().size <= used_after_all(
            left,
            used,
            changes.drop_last(),
        )
    }
}

/// What is handed out and what is left always come to the limit, and neither is
/// ever less than nothing: no process gets more than its limit.
pub proof fn law_the_limit_is_kept(left: int, used: int, changes: Seq<Change>)
    requires
        left >= 0,
        used >= 0,
        sound(left, used, changes),
    ensures
        left_after_all(left, changes) + used_after_all(left, used, changes) == left + used,
        left_after_all(left, changes) >= 0,
        used_after_all(left, used, changes) >= 0,
        used_after_all(left, used, changes) <= left + used,
    decreases changes.len(),
{
    if changes.len() > 0 {
        law_the_limit_is_kept(left, used, changes.drop_last());
    }
}

/// Memory that is asked for, handed out or not, and given back, leaves as much
/// as there was before.
pub proof fn law_giving_back_undoes(left: int, size: int, agreed: bool)
    requires
        left >= 0,
        size >= 0,
    ensures
        ({
            let change = Change { grows: true, size, agreed };
            let back = Change { grows: false, size, agreed: left >= size && agreed };
            left_after(left_after(left, change), back) == left
        }),
{
}

/// Memory is handed out exactly if there is as much left, down to the last byte, and
/// the system agrees; then that much less is left. What is given back is left again.
pub proof fn law_what_is_left_is_handed_out(left: int, size: int)
    requires
        size > 0,
    ensures
        left_after(left, Change { grows: true, size, agreed: true }) == (if size <= left {
            left - size
        } else {
            left
        }),
        left_after(size, Change { grows: true, size, agreed: true }) == 0,
        left_after(left, Change { grows: true, size, agreed: false }) == left,
        left_after(left, Change { grows: false, size, agreed: true }) - left == size,
        left_after(left, Change { grows: false, size, agreed: false }) == left,
{
}

} // verus!
