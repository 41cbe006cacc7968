//! Moving a known number of bytes in as many goes as it takes.

use crate::hex::{hex_text, ToHex};
use vstd::prelude::*;

verus! {

/// A transfer of `len` bytes, `done` of which are through.
#[derive(Copy, Clone, PartialEq, Eq, Debug, Structural)]
pub struct Copying {
    pub done: usize,
    pub len: usize,
}

impl Copying {
    /// Whether no more went through than was to.
    pub open spec fn wf(self) -> bool {
        self.done <= self.len
    }

    /// A transfer of `len` bytes, none of which is through.
    pub fn new(len: usize) -> (r: Copying)
        ensures
            r.wf(),
            r == (Copying { done: 0, len }),
    {
        Copying { done: 0, len }
    }

    /// How much to ask for in the next go; `None` if all is through.
    pub fn next(&self) -> (r: Option<usize>)
        requires
            self.wf(),
        ensures
            match r {
                Some(n) => n == self.len - self.done && n > 0,
                None => self.done == self.len,
            },
    {
        if self.done == self.len {
            None
        } else {
            Some(self.len - self.done)
        }
    }

    /// Takes note that `n` more bytes went through.
    pub fn moved(&mut self, n: usize)
        requires
            old(self).wf(),
            n <= old(self).len - old(self).done,
        ensures
            final(self).wf(),
            *final(self) == (Copying { done: (old(self).done + n) as usize, len: old(self).len }),
    {
        self.done += n;
    }
}

/// The name of a piece of shared memory, made of random bytes.
pub fn shared_name(random: &[u8]) -> (r: String)
    ensures
        r@ == "/"@ + hex_text(random@),
{
    String::from_str("/").concat(random.to_hex().to_string().as_str())
}

} // verus!
