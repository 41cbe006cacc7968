//! Sizes of memory as they are written on a command line.

use crate::text::{
    chars, decimal, decimal_text, digits_end, find_digits_end, is_ascii_char, is_digit,
    lemma_decimal_text_reads_back, lemma_digits_end_bounds, lemma_digits_end_unique, parse_decimal,
    rest_is,
};
use crate::units::Mem;
use vstd::prelude::*;

verus! {

/// How many bytes `unit` stands for.
pub open spec fn unit_bytes(unit: Seq<char>) -> Option<int> {
    if unit == "B"@ {
        Some(Mem::B as int)
    } else if unit == "KiB"@ {
        Some(Mem::KIB as int)
    } else if unit == "MiB"@ {
        Some(Mem::MIB as int)
    } else if unit == "GiB"@ {
        Some(Mem::GIB as int)
    } else if unit == "TiB"@ {
        Some(Mem::TIB as int)
    } else if unit == "PiB"@ {
        Some(Mem::PIB as int)
    } else if unit == "EiB"@ {
        Some(Mem::EIB as int)
    } else {
        None
    }
}

/// The size that is written as a whole number, the fraction `fraction` of a unit
/// and the unit `unit`. `None` if it cannot be told: fractions are not catered
/// for, nor is what does not fit.
pub open spec fn with_unit(whole: int, fraction: int, unit: Seq<char>) -> Option<Result<u64, ()>> {
    match unit_bytes(unit) {
        None => Some(Err(())),
        Some(bytes) => if fraction > 0 || whole * bytes > u64::MAX {
            None
        } else {
            Some(Ok((whole * bytes) as u64))
        },
    }
}

/// The size that `s` says, `Err` if it says none. Without a unit it is a number
/// of bytes, whose fraction is dropped. The outer `None` is for what cannot be
/// told: what does not start with a digit, or does not fit.
pub open spec fn said_size(s: Seq<char>) -> Option<Result<u64, ()>> {
    let end = digits_end(s, 0);
    let whole = decimal(s.take(end));
    if s.len() == 0 {
        Some(Err(()))
    } else if end == 0 || whole > u64::MAX {
        None
    } else if end == s.len() {
        Some(Ok(whole as u64))
    } else if !is_ascii_char(s[end]) {
        None
    } else if s[end] != '.' {
        with_unit(whole as int, 0, s.skip(end))
    } else {
        let last = digits_end(s, end + 1);
        let fraction = decimal(s.subrange(end + 1, last));
        if fraction > u64::MAX {
            None
        } else if last == s.len() {
            Some(Ok(whole as u64))
        } else {
            with_unit(whole as int, fraction as int, s.skip(last))
        }
    }
}

fn unit_at(cs: &Vec<char>, from: usize) -> (r: Option<u64>)
    requires
        from <= cs.len(),
    ensures
        match r {
            Some(bytes) => unit_bytes(cs@.skip(from as int)) == Some(bytes as int),
            None => unit_bytes(cs@.skip(from as int)) is None,
        },
{
    if rest_is(cs, from, "B") {
        Some(Mem::B)
    } else if rest_is(cs, from, "KiB") {
        Some(Mem::KIB)
    } else if rest_is(cs, from, "MiB") {
        Some(Mem::MIB)
    } else if rest_is(cs, from, "GiB") {
        Some(Mem::GIB)
    } else if rest_is(cs, from, "TiB") {
        Some(Mem::TIB)
    } else if rest_is(cs, from, "PiB") {
        Some(Mem::PIB)
    } else if rest_is(cs, from, "EiB") {
        Some(Mem::EIB)
    } else {
        None
    }
}

fn scaled(whole: u64, fraction: u64, cs: &Vec<char>, from: usize) -> (r: Option<Result<u64, ()>>)
    requires
        from <= cs.len(),
    ensures
        r == with_unit(whole as int, fraction as int, cs@.skip(from as int)),
{
    match unit_at(cs, from) {
        None => Some(Err(())),
        Some(bytes) => if fraction > 0 {
            None
        } else {
            match whole.checked_mul(bytes) {
                Some(size) => Some(Ok(size)),
                None => None,
            }
        },
    }
}

/// The size that `input` says; the outer `None` if it cannot be told.
pub fn try_parse_binary_size(input: &str) -> (r: Option<Result<u64, ()>>)
    ensures
        r == said_size(input@),
{
    let cs = chars(input);
    if cs.len() == 0 {
        return Some(Err(()));
    }
    proof {
        lemma_digits_end_bounds(cs@, 0);
    }
    let end: usize = find_digits_end(&cs, 0);
    if end == 0 {
        return None;
    }
    assert(cs@.subrange(0, end as int) =~= cs@.take(end as int));
    let whole: u64 = match parse_decimal(&cs, 0, end) {
        Some(whole) => whole,
        None => {
            return None;
        },
    };
    if end == cs.len() {
        return Some(Ok(whole));
    }
    if cs[end] as u32 > 127 {
        return None;
    }
    if cs[end] != '.' {
        return scaled(whole, 0, &cs, end);
    }
    proof {
        lemma_digits_end_bounds(cs@, end + 1);
    }
    let last: usize = find_digits_end(&cs, end + 1);
    let fraction: u64 = match parse_decimal(&cs, end + 1, last) {
        Some(fraction) => fraction,
        None => {
            return None;
        },
    };
    if last == cs.len() {
        return Some(Ok(whole));
    }
    scaled(whole, fraction, &cs, last)
}

/// The size that `input` says.
pub fn parse_binary_size(input: &str) -> (r: Result<u64, ()>)
    requires
        said_size(input@) is Some,
    ensures
        Some(r) == said_size(input@),
{
    match try_parse_binary_size(input) {
        Some(size) => size,
        None => Err(()),
    }
}

proof fn lemma_said(digits: Seq<char>, unit: Seq<char>)
    requires
        digits.len() > 0,
        forall|i: int| 0 <= i < digits.len() ==> is_digit(#[trigger] digits[i]),
        decimal(digits) <= u64::MAX,
        unit.len() > 0,
        !is_digit(unit[0]),
        is_ascii_char(unit[0]),
        unit[0] != '.',
    ensures
        said_size(digits + unit) == with_unit(decimal(digits) as int, 0, unit),
{
    let s = digits + unit;
    let n = digits.len() as int;
    assert forall|i: int| 0 <= i < n implies is_digit(#[trigger] s[i]) by {
        assert(s[i] == digits[i]);
    }
    assert(s[n] == unit[0]);
    lemma_digits_end_unique(s, 0, n);
    assert(s.take(n) =~= digits);
    assert(s.skip(n) =~= unit);
}

/// Each unit is 1024 times the one before it, and a number before it says how many
/// of it there are; without a unit it is a number of bytes. What does not fit in 64
/// bits is not told.
pub proof fn law_sizes_are_powers_of_1024(n: u64)
    ensures
        ({
            let number = decimal_text(n as nat);
            &&& said_size(number + "B"@) == (if n * (1) <= u64::MAX {
                Some(Ok::<u64, ()>((n * (1)) as u64))
            } else {
                None
            })
            &&& said_size(number + "KiB"@) == (if n * (1024) <= u64::MAX {
                Some(Ok::<u64, ()>((n * (1024)) as u64))
            } else {
                None
            })
            &&& said_size(number + "MiB"@) == (if n * (1024 * 1024) <= u64::MAX {
                Some(Ok::<u64, ()>((n * (1024 * 1024)) as u64))
            } else {
                None
            })
            &&& said_size(number + "GiB"@) == (if n * (1024 * 1024 * 1024) <= u64::MAX {
                Some(Ok::<u64, ()>((n * (1024 * 1024 * 1024)) as u64))
            } else {
                None
            })
            &&& said_size(number + "TiB"@) == (if n * (1024 * 1024 * 1024 * 1024) <= u64::MAX {
                Some(Ok::<u64, ()>((n * (1024 * 1024 * 1024 * 1024)) as u64))
            } else {
                None
            })
            &&& said_size(number + "PiB"@) == (if n * (1024 * 1024 * 1024 * 1024 * 1024) <= u64::MAX {
                Some(Ok::<u64, ()>((n * (1024 * 1024 * 1024 * 1024 * 1024)) as u64))
            } else {
                None
            })
            &&& said_size(number + "EiB"@) == (if n * (1024 * 1024 * 1024 * 1024 * 1024 * 1024) <= u64::MAX {
                Some(Ok::<u64, ()>((n * (1024 * 1024 * 1024 * 1024 * 1024 * 1024)) as u64))
            } else {
                None
            })
            &&& said_size(number) == Some(Ok::<u64, ()>(n))
        }),
{
    let number = decimal_text(n as nat);
    lemma_decimal_text_reads_back(n as nat);
    reveal_strlit("B");
    lemma_said(number, "B"@);
    reveal_strlit("KiB");
    lemma_said(number, "KiB"@);
    reveal_strlit("MiB");
    lemma_said(number, "MiB"@);
    reveal_strlit("GiB");
    lemma_said(number, "GiB"@);
    reveal_strlit("TiB");
    lemma_said(number, "TiB"@);
    reveal_strlit("PiB");
    lemma_said(number, "PiB"@);
    reveal_strlit("EiB");
    lemma_said(number, "EiB"@);
    assert("B"@.len() == 1);
    assert("KiB"@.len() == 3 && "KiB"@[0] == 'K');
    assert("MiB"@.len() == 3 && "MiB"@[0] == 'M');
    assert("GiB"@.len() == 3 && "GiB"@[0] == 'G');
    assert("TiB"@.len() == 3 && "TiB"@[0] == 'T');
    assert("PiB"@.len() == 3 && "PiB"@[0] == 'P');
    assert("EiB"@.len() == 3 && "EiB"@[0] == 'E');
    assert forall|i: int| 0 <= i < number.len() implies is_digit(#[trigger] number[i]) by {
    }
    lemma_digits_end_unique(number, 0, number.len() as int);
    assert(number.take(number.len() as int) =~= number);
}

/// A number with a point and without a unit is a number of bytes, whose fraction is
/// dropped; with a unit it is not told, unless the fraction is nothing.
pub proof fn law_fractions_are_not_catered_for(whole: Seq<char>, places: Seq<char>)
    requires
        whole.len() > 0,
        forall|i: int| 0 <= i < whole.len() ==> is_digit(#[trigger] whole[i]),
        forall|i: int| 0 <= i < places.len() ==> is_digit(#[trigger] places[i]),
        decimal(whole) * 1024 <= u64::MAX,
        decimal(places) <= u64::MAX,
    ensures
        said_size(whole + "."@ + places) == Some(Ok::<u64, ()>(decimal(whole) as u64)),
        decimal(places) > 0 ==> said_size(whole + "."@ + places + "KiB"@) is None,
        decimal(places) == 0 ==> said_size(whole + "."@ + places + "KiB"@) == Some(
            Ok::<u64, ()>((decimal(whole) * 1024) as u64),
        ),
{
    reveal_strlit(".");
    reveal_strlit("");
    reveal_strlit("B");
    reveal_strlit("KiB");
    lemma_pointed(whole, places, ""@);
    lemma_pointed(whole, places, "KiB"@);
    assert(whole + "."@ + places + ""@ =~= whole + "."@ + places);
}

proof fn lemma_pointed(whole: Seq<char>, places: Seq<char>, unit: Seq<char>)
    requires
        whole.len() > 0,
        forall|i: int| 0 <= i < whole.len() ==> is_digit(#[trigger] whole[i]),
        forall|i: int| 0 <= i < places.len() ==> is_digit(#[trigger] places[i]),
        decimal(whole) <= u64::MAX,
        decimal(places) <= u64::MAX,
        unit.len() > 0 ==> !is_digit(unit[0]),
    ensures
        said_size(whole + "."@ + places + unit) == (if unit.len() == 0 {
            Some(Ok::<u64, ()>(decimal(whole) as u64))
        } else {
            with_unit(decimal(whole) as int, decimal(places) as int, unit)
        }),
{
    reveal_strlit(".");
    let s = whole + "."@ + places + unit;
    let a = whole.len() as int;
    let b = a + 1 + places.len();
    assert forall|i: int| 0 <= i < a implies is_digit(#[trigger] s[i]) by {
        assert(s[i] == whole[i]);
    }
    assert(s[a] == '.');
    lemma_digits_end_unique(s, 0, a);
    assert(s.take(a) =~= whole);
    assert forall|i: int| a + 1 <= i < b implies is_digit(#[trigger] s[i]) by {
        assert(s[i] == places[i - a - 1]);
    }
    if unit.len() > 0 {
        assert(s[b] == unit[0]);
    }
    lemma_digits_end_unique(s, a + 1, b);
    assert(s.subrange(a + 1, b) =~= places);
    assert(s.skip(b) =~= unit);
}

/// What says nothing, or a number of something else, is refused.
pub proof fn law_other_sizes_are_refused(digits: Seq<char>, unit: Seq<char>)
    requires
        digits.len() > 0,
        forall|i: int| 0 <= i < digits.len() ==> is_digit(#[trigger] digits[i]),
        decimal(digits) <= u64::MAX,
        unit.len() > 0,
        !is_digit(unit[0]),
        is_ascii_char(unit[0]),
        unit[0] != '.',
        unit.len() != 3 || unit[1] != 'i' || unit[2] != 'B',
        unit.len() != 1 || unit[0] != 'B',
    ensures
        said_size(digits + unit) == Some(Err::<u64, ()>(())),
        said_size(seq![]) == Some(Err::<u64, ()>(())),
{
    reveal_strlit("B");
    reveal_strlit("KiB");
    reveal_strlit("MiB");
    reveal_strlit("GiB");
    reveal_strlit("TiB");
    reveal_strlit("PiB");
    reveal_strlit("EiB");
    assert("B"@.len() == 1);
    assert("KiB"@.len() == 3 && "KiB"@[0] == 'K');
    assert("MiB"@.len() == 3 && "MiB"@[0] == 'M');
    assert("GiB"@.len() == 3 && "GiB"@[0] == 'G');
    assert("TiB"@.len() == 3 && "TiB"@[0] == 'T');
    assert("PiB"@.len() == 3 && "PiB"@[0] == 'P');
    assert("EiB"@.len() == 3 && "EiB"@[0] == 'E');
    lemma_said(digits, unit);
}

} // verus!
