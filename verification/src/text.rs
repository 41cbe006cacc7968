//! Characters and decimal numbers.

use vstd::prelude::*;

verus! {

/// `String::push` puts one character at the end of the string.
pub assume_specification[ String::push ](s: &mut String, c: char)
    ensures
        final(s)@ == old(s)@.push(c),
;

/// Whether `c` is one of `0` to `9`.
pub open spec fn is_digit(c: char) -> bool {
    '0' <= c && c <= '9'
}

/// Whether `c` takes a single byte in UTF-8.
pub open spec fn is_ascii_char(c: char) -> bool {
    (c as u32) < 128
}

/// The number that a digit stands for.
pub open spec fn digit_value(c: char) -> nat {
    (c as u32 - '0' as u32) as nat
}

/// Where the run of digits that starts at `from` ends.
pub open spec fn digits_end(s: Seq<char>, from: int) -> int
    decreases s.len() - from,
{
    if 0 <= from < s.len() && is_digit(s[from]) {
        digits_end(s, from + 1)
    } else {
        from
    }
}

/// The number that a run of digits spells in base ten; no digits spell zero.
pub open spec fn decimal(s: Seq<char>) -> nat
    decreases s.len(),
{
    if s.len() == 0 {
        0
    } else {
        10 * decimal(s.drop_last()) + digit_value(s.last())
    }
}

/// Ten to the power of `n`.
pub open spec fn pow10(n: nat) -> nat
    decreases n,
{
    if n == 0 {
        1
    } else {
        10 * pow10((n - 1) as nat)
    }
}

/// The usual way to write `n` in base ten, without leading zeros.
pub open spec fn decimal_text(n: nat) -> Seq<char>
    decreases n,
{
    if n < 10 {
        seq![digit_char(n)]
    } else {
        decimal_text(n / 10).push(digit_char(n % 10))
    }
}

/// The digit that stands for `d`, which is below ten.
pub open spec fn digit_char(d: nat) -> char {
    (('0' as u32 + d) as u32) as char
}

pub proof fn lemma_digits_end_bounds(s: Seq<char>, from: int)
    requires
        0 <= from <= s.len(),
    ensures
        from <= digits_end(s, from) <= s.len(),
        forall|i: int| from <= i < digits_end(s, from) ==> is_digit(#[trigger] s[i]),
        digits_end(s, from) < s.len() ==> !is_digit(s[digits_end(s, from)]),
    decreases s.len() - from,
{
    if from < s.len() && is_digit(s[from]) {
        lemma_digits_end_bounds(s, from + 1);
    }
}

pub proof fn lemma_digits_end_unique(s: Seq<char>, from: int, end: int)
    requires
        0 <= from <= end <= s.len(),
        forall|i: int| from <= i < end ==> is_digit(#[trigger] s[i]),
        end < s.len() ==> !is_digit(s[end]),
    ensures
        digits_end(s, from) == end,
    decreases end - from,
{
    if from < end {
        assert(is_digit(s[from]));
        lemma_digits_end_unique(s, from + 1, end);
    }
}

pub proof fn lemma_decimal_monotonic(s: Seq<char>, n: int)
    requires
        0 <= n <= s.len(),
    ensures
        decimal(s.take(n)) <= decimal(s),
    decreases s.len() - n,
{
    if n < s.len() {
        lemma_decimal_monotonic(s, n + 1);
        assert(s.take(n + 1).drop_last() =~= s.take(n));
    } else {
        assert(s.take(n) =~= s);
    }
}

pub proof fn lemma_pow10_monotonic(a: nat, b: nat)
    requires
        a <= b,
    ensures
        1 <= pow10(a) <= pow10(b),
    decreases b,
{
    if b > 0 {
        if a == b {
            lemma_pow10_monotonic((a - 1) as nat, (b - 1) as nat);
        } else {
            lemma_pow10_monotonic(a, (b - 1) as nat);
        }
    }
}

/// Writing a number in base ten and reading it back gives the number.
pub proof fn lemma_decimal_text_reads_back(n: nat)
    ensures
        decimal_text(n).len() > 0,
        forall|i: int| 0 <= i < decimal_text(n).len() ==> is_digit(#[trigger] decimal_text(n)[i]),
        decimal(decimal_text(n)) == n,
    decreases n,
{
    if n < 10 {
        reveal_with_fuel(decimal, 2);
        assert(decimal_text(n).drop_last() =~= Seq::<char>::empty());
    } else {
        lemma_decimal_text_reads_back(n / 10);
        let t = decimal_text(n / 10);
        assert(decimal_text(n).drop_last() =~= t);
        assert forall|i: int| 0 <= i < decimal_text(n).len() implies is_digit(
            #[trigger] decimal_text(n)[i],
        ) by {
            if i < t.len() {
                assert(decimal_text(n)[i] == t[i]);
            }
        }
    }
}

/// The characters of `s`.
pub fn chars(s: &str) -> (r: Vec<char>)
    ensures
        r@ == s@,
{
    let mut r: Vec<char> = Vec::new();
    let n: usize = s.unicode_len();
    for i in 0..n
        invariant
            n == s@.len(),
            r@ == s@.take(i as int),
    {
        r.push(s.get_char(i));
    }
    assert(s@.take(n as int) =~= s@);
    r
}

/// The string made of the characters `cs`.
pub fn string(cs: &Vec<char>) -> (r: String)
    ensures
        r@ == cs@,
{
    let mut r = String::new();
    for i in 0..cs.len()
        invariant
            r@ == cs@.take(i as int),
    {
        r.push(cs[i]);
        assert(cs@.take(i + 1) =~= cs@.take(i as int).push(cs@[i as int]));
    }
    assert(cs@.take(cs.len() as int) =~= cs@);
    r
}

/// Where the run of digits that starts at `from` ends.
pub fn find_digits_end(cs: &Vec<char>, from: usize) -> (end: usize)
    requires
        from <= cs.len(),
    ensures
        end == digits_end(cs@, from as int),
        from <= end <= cs.len(),
{
    let mut i: usize = from;
    while i < cs.len() && cs[i] >= '0' && cs[i] <= '9'
        invariant
            from <= i <= cs.len(),
            forall|j: int| from <= j < i ==> is_digit(#[trigger] cs@[j]),
        decreases cs.len() - i,
    {
        i = i + 1;
    }
    proof {
        lemma_digits_end_unique(cs@, from as int, i as int);
    }
    i
}

/// The number spelt by the digits from `from` up to `to`, or `None` if it is
/// above the largest `u64`.
pub fn parse_decimal(cs: &Vec<char>, from: usize, to: usize) -> (r: Option<u64>)
    requires
        from <= to <= cs.len(),
        forall|i: int| from <= i < to ==> is_digit(#[trigger] cs@[i]),
    ensures
        match r {
            Some(v) => v == decimal(cs@.subrange(from as int, to as int)),
            None => decimal(cs@.subrange(from as int, to as int)) > u64::MAX,
        },
{
    let ghost all = cs@.subrange(from as int, to as int);
    let mut v: u64 = 0;
    let mut i: usize = from;
    while i < to
        invariant
            from <= i <= to <= cs.len(),
            all == cs@.subrange(from as int, to as int),
            forall|j: int| from <= j < to ==> is_digit(#[trigger] cs@[j]),
            v == decimal(all.take(i - from)),
        decreases to - i,
    {
        let d: u64 = (cs[i] as u32 - '0' as u32) as u64;
        proof {
            assert(all.take(i + 1 - from).drop_last() =~= all.take(i - from));
            lemma_decimal_monotonic(all, i + 1 - from);
        }
        if v > (u64::MAX - d) / 10 {
            return None;
        }
        v = v * 10 + d;
        i = i + 1;
    }
    assert(all.take(to - from) =~= all);
    Some(v)
}

/// Ten to the power of `n`, or `None` if that is above the largest `u64`.
pub fn checked_pow10(n: usize) -> (r: Option<u64>)
    ensures
        match r {
            Some(v) => v == pow10(n as nat),
            None => pow10(n as nat) > u64::MAX,
        },
{
    let mut v: u64 = 1;
    let mut i: usize = 0;
    while i < n
        invariant
            i <= n,
            v == pow10(i as nat),
        decreases n - i,
    {
        proof {
            lemma_pow10_monotonic((i + 1) as nat, n as nat);
        }
        if v > u64::MAX / 10 {
            return None;
        }
        v = v * 10;
        i = i + 1;
    }
    Some(v)
}

/// Whether what follows position `from` is exactly `literal`.
pub fn rest_is(cs: &Vec<char>, from: usize, literal: &str) -> (r: bool)
    requires
        from <= cs.len(),
    ensures
        r == (cs@.skip(from as int) == literal@),
{
    let n: usize = literal.unicode_len();
    if cs.len() - from != n {
        return false;
    }
    for i in 0..n
        invariant
            n == literal@.len(),
            from + n == cs.len(),
            forall|j: int| 0 <= j < i ==> cs@[from + j] == #[trigger] literal@[j],
    {
        if cs[from + i] != literal.get_char(i) {
            assert(cs@.skip(from as int)[i as int] != literal@[i as int]);
            return false;
        }
    }
    assert(cs@.skip(from as int) =~= literal@);
    true
}

/// The usual way to write `n` in base ten.
pub fn format_decimal(n: u64) -> (r: String)
    ensures
        r@ == decimal_text(n as nat),
{
    let mut digits: Vec<char> = Vec::new();
    let mut rest: u64 = n;
    while rest >= 10
        invariant
            decimal_text(n as nat) =~= decimal_text(rest as nat) + digits@.reverse(),
        decreases rest,
    {
        proof {
            assert(digits@.push(digit_char((rest % 10) as nat)).reverse() =~= seq![
                digit_char((rest % 10) as nat),
            ] + digits@.reverse());
            assert(decimal_text(rest as nat) =~= decimal_text((rest / 10) as nat) + seq![
                digit_char((rest % 10) as nat),
            ]);
        }
        digits.push(char_of_digit(rest % 10));
        rest = rest / 10;
    }
    digits.push(char_of_digit(rest));
    let mut r = String::new();
    let mut i: usize = digits.len();
    while i > 0
        invariant
            i <= digits.len(),
            r@ == digits@.reverse().take(digits.len() - i),
        decreases i,
    {
        i = i - 1;
        r.push(digits[i]);
        assert(digits@.reverse().take(digits.len() - i) =~= digits@.reverse().take(
            digits.len() - i - 1,
        ).push(digits@[i as int]));
    }
    proof {
        assert(digits@.reverse().take(digits.len() as int) =~= digits@.reverse());
    }
    r
}

/// The digit that stands for `d`.
pub fn char_of_digit(d: u64) -> (c: char)
    requires
        d < 10,
    ensures
        c == digit_char(d as nat),
{
    ('0' as u8 + d as u8) as char
}

/// A digit behind a number makes it ten times as much and as much more as the
/// digit says.
pub proof fn law_digits_count_by_tens(s: Seq<char>, d: nat)
    requires
        d < 10,
    ensures
        decimal(s.push(digit_char(d))) == 10 * decimal(s) + d,
        digit_char(0) == '0' && digit_char(1) == '1' && digit_char(9) == '9',
        d < 9 ==> digit_char(d + 1) as u32 == digit_char(d) as u32 + 1,
{
    assert(s.push(digit_char(d)).drop_last() =~= s);
}

/// Different numbers are written differently.
pub proof fn law_numbers_are_told_apart(a: nat, b: nat)
    requires
        decimal_text(a) == decimal_text(b),
    ensures
        a == b,
{
    lemma_decimal_text_reads_back(a);
    lemma_decimal_text_reads_back(b);
}

} // verus!
