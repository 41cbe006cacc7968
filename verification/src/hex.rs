//! Bytes as hexadecimal digits.

use vstd::prelude::*;
use vstd::slice::slice_subrange;

verus! {

/// The digit that stands for `n`, which is below sixteen.
pub open spec fn hex_digit(n: int) -> char {
    if n < 10 {
        (('0' as u32 + n) as u32) as char
    } else {
        (('a' as u32 + (n - 10)) as u32) as char
    }
}

/// The digits of `bytes`: two for each byte, the high half first.
pub open spec fn hex_text(bytes: Seq<u8>) -> Seq<char> {
    Seq::new(
        2 * bytes.len(),
        |i: int|
            if i % 2 == 0 {
                hex_digit(bytes[i / 2] as int / 16)
            } else {
                hex_digit(bytes[i / 2] as int % 16)
            },
    )
}

/// The hexadecimal digits of some bytes, handed out one by one. The flag says
/// that the first half of the first byte has been handed out.
#[derive(Clone, Debug)]
pub struct Hex<'a>(&'a [u8], bool);

impl<'a> Hex<'a> {
    pub closed spec fn wf(&self) -> bool {
        self.1 ==> self.0@.len() > 0
    }

    /// The digits that are still to come.
    pub closed spec fn remaining(&self) -> Seq<char> {
        if self.1 {
            hex_text(self.0@).skip(1)
        } else {
            hex_text(self.0@)
        }
    }

    /// The next digit, if there is one.
    pub fn next(&mut self) -> (r: Option<char>)
        requires
            old(self).wf(),
        ensures
            final(self).wf(),
            match r {
                Some(c) => old(self).remaining().len() > 0 && c == old(self).remaining()[0]
                    && final(self).remaining() == old(self).remaining().skip(1),
                None => old(self).remaining().len() == 0 && final(self).remaining() == old(
                    self,
                ).remaining(),
            },
    {
        if self.0.len() == 0 {
            return None;
        }
        let ghost bytes = self.0@;
        let byte: u8 = self.0[0];
        let second: bool = self.1;
        if second {
            let rest: &'a [u8] = slice_subrange(self.0, 1, self.0.len());
            self.0 = rest;
            assert(hex_text(rest@) =~= hex_text(bytes).skip(2));
            assert(hex_text(bytes).skip(1).skip(1) =~= hex_text(bytes).skip(2));
        }
        self.1 = !second;
        proof {
            assert(hex_text(bytes)[0] == hex_digit(byte as int / 16));
            assert(hex_text(bytes)[1] == hex_digit(byte as int % 16));
            assert(byte >> 4 == byte / 16) by (bit_vector);
            assert(byte & 0xf == byte % 16) by (bit_vector);
        }
        Some(
            char_of_hex(
                if second {
                    byte & 0xf
                } else {
                    byte >> 4
                },
            ),
        )
    }

    /// At most `limit` of the digits that are still to come.
    pub fn take(&self, limit: usize) -> (r: Vec<char>)
        requires
            self.wf(),
        ensures
            r@ == self.remaining().take(
                if limit < self.remaining().len() {
                    limit as int
                } else {
                    self.remaining().len() as int
                },
            ),
    {
        let mut rest = Hex(self.0, self.1);
        let mut r: Vec<char> = Vec::new();
        let ghost all = self.remaining();
        while r.len() < limit
            invariant
                rest.wf(),
                all == self.remaining(),
                r.len() <= limit,
                r.len() <= all.len(),
                r@ == all.take(r.len() as int),
                rest.remaining() == all.skip(r.len() as int),
            decreases limit - r.len(),
        {
            match rest.next() {
                Some(c) => {
                    assert(all.take(r.len() as int).push(c) =~= all.take(r.len() + 1));
                    assert(all.skip(r.len() as int).skip(1) =~= all.skip(r.len() + 1));
                    r.push(c);
                },
                None => {
                    return r;
                },
            }
        }
        r
    }

    /// All digits that are still to come.
    pub fn to_string(&self) -> (r: String)
        requires
            self.wf(),
        ensures
            r@ == self.remaining(),
    {
        let mut rest = Hex(self.0, self.1);
        let mut r = String::new();
        let ghost all = self.remaining();
        let ghost mut n: int = 0;
        loop
            invariant
                rest.wf(),
                all == self.remaining(),
                0 <= n <= all.len(),
                r@ == all.take(n),
                rest.remaining() == all.skip(n),
            decreases all.len() - n,
        {
            match rest.next() {
                Some(c) => {
                    assert(all.take(n).push(c) =~= all.take(n + 1));
                    assert(all.skip(n).skip(1) =~= all.skip(n + 1));
                    r.push(c);
                    proof {
                        n = n + 1;
                    }
                },
                None => {
                    assert(all.take(n) =~= all);
                    return r;
                },
            }
        }
    }
}

/// What can be shown as hexadecimal digits.
pub trait ToHex {
    /// The digits of this value.
    fn to_hex(&self) -> (h: Hex<'_>);
}

impl ToHex for [u8] {
    fn to_hex(&self) -> (h: Hex<'_>)
        ensures
            h.wf(),
            h.remaining() == hex_text(self@),
    {
        Hex(self, false)
    }
}

fn char_of_hex(n: u8) -> (c: char)
    requires
        n < 16,
    ensures
        c == hex_digit(n as int),
{
    if n < 10 {
        ('0' as u8 + n) as char
    } else {
        ('a' as u8 + (n - 10)) as char
    }
}

/// The number that a hexadecimal digit stands for.
pub open spec fn hex_value(c: char) -> int {
    if c <= '9' {
        c as u32 - '0' as u32
    } else {
        c as u32 - 'a' as u32 + 10
    }
}

/// The digits of some bytes determine the bytes: byte `i` is sixteen times the
/// value of digit `2 * i` plus the value of the digit after it.
pub proof fn law_hex_is_faithful(bytes: Seq<u8>, i: int)
    requires
        0 <= i < bytes.len(),
    ensures
        bytes[i] == 16 * hex_value(hex_text(bytes)[2 * i]) + hex_value(hex_text(bytes)[2 * i + 1]),
{
    assert(hex_text(bytes)[2 * i] == hex_digit(bytes[i] as int / 16));
    assert(hex_text(bytes)[2 * i + 1] == hex_digit(bytes[i] as int % 16));
}

/// There are two digits for each byte, and each is one of `0` to `9` and `a` to `f`.
pub proof fn law_digits_are_hexadecimal(bytes: Seq<u8>, i: int)
    requires
        0 <= i < hex_text(bytes).len(),
    ensures
        hex_text(bytes).len() == 2 * bytes.len(),
        '0' <= hex_text(bytes)[i] && hex_text(bytes)[i] <= '9' || 'a' <= hex_text(bytes)[i]
            && hex_text(bytes)[i] <= 'f',
{
    let b = bytes[i / 2] as int;
    assert(0 <= b / 16 < 16 && 0 <= b % 16 < 16);
}

} // verus!
