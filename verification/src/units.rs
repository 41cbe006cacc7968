//! Amounts of memory and of processor time.

use crate::text;
use crate::text::{
    checked_pow10, chars, find_digits_end, format_decimal, is_ascii_char, parse_decimal, rest_is,
};
use vstd::prelude::*;
use vstd::std_specs::ops::{
    AddSpec, AddSpecImpl, DivSpec, DivSpecImpl, MulSpec, MulSpecImpl, SubSpec, SubSpecImpl,
};

verus! {

/// A number of bytes.
#[derive(Copy, Clone, PartialEq, Eq, PartialOrd, Ord, Hash, Debug, Structural)]
pub struct Mem(pub u64);

/// A number of logical processor cores, in units of one 65536th.
#[derive(Copy, Clone, PartialEq, Eq, PartialOrd, Ord, Hash, Debug, Structural)]
pub struct Cpu(pub u32);

/// A quantity as it is written: digits, then possibly a point and more digits,
/// then whatever follows.
pub struct Written {
    /// Where the digits before the point end.
    pub whole_end: int,
    /// The number before the point.
    pub whole: nat,
    /// The digits after the point, read as a number.
    pub fraction: nat,
    /// How many digits follow the point.
    pub places: nat,
    /// Where the number ends.
    pub end: int,
}

/// How `s` reads as a quantity.
pub open spec fn written(s: Seq<char>) -> Written {
    let whole_end = text::digits_end(s, 0);
    let whole = text::decimal(s.take(whole_end));
    if whole_end < s.len() && s[whole_end] == '.' {
        let end = text::digits_end(s, whole_end + 1);
        Written {
            whole_end,
            whole,
            fraction: text::decimal(s.subrange(whole_end + 1, end)),
            places: (end - whole_end - 1) as nat,
            end,
        }
    } else {
        Written { whole_end, whole, fraction: 0, places: 0, end: whole_end }
    }
}

/// Whether a quantity starts with digits whose numbers fit, and is followed by
/// nothing or by an ASCII character.
pub open spec fn well_written(s: Seq<char>) -> bool {
    let w = written(s);
    &&& w.whole_end > 0
    &&& w.whole_end < s.len() ==> is_ascii_char(s[w.whole_end])
    &&& w.end < s.len() ==> is_ascii_char(s[w.end])
    &&& w.whole <= u64::MAX
    &&& w.fraction <= u64::MAX
    &&& w.places <= u32::MAX
}

/// `whole + fraction / 10^places`, in units of `unit`, rounded down.
pub open spec fn scaled(w: Written, unit: nat) -> nat {
    w.whole * unit + (w.fraction * unit) / text::pow10(w.places)
}

/// Whether `scaled` can be computed step by step without leaving `u64`.
pub open spec fn scales(w: Written, unit: nat) -> bool {
    &&& w.whole * unit <= u64::MAX
    &&& w.fraction * unit <= u64::MAX
    &&& text::pow10(w.places) <= u64::MAX
    &&& scaled(w, unit) <= u64::MAX
}

/// The number of bytes that a suffix stands for.
pub open spec fn unit_bytes(suffix: Seq<char>) -> Option<nat> {
    if suffix == ""@ || suffix == "B"@ {
        Some(0x1)
    } else if suffix == "KiB"@ {
        Some(0x400)
    } else if suffix == "MiB"@ {
        Some(0x10_0000)
    } else if suffix == "GiB"@ {
        Some(0x4000_0000)
    } else if suffix == "TiB"@ {
        Some(0x100_0000_0000)
    } else if suffix == "PiB"@ {
        Some(0x4_0000_0000_0000)
    } else if suffix == "EiB"@ {
        Some(0x1000_0000_0000_0000)
    } else {
        None
    }
}

/// What follows the number, without the one space that may part them. A space
/// that nothing follows is part of the suffix.
pub open spec fn suffix(s: Seq<char>) -> Seq<char> {
    let end = written(s).end;
    if end + 1 < s.len() && s[end] == ' ' {
        s.skip(end + 1)
    } else {
        s.skip(end)
    }
}

/// The memory size that `s` spells, if it spells one.
pub open spec fn mem_spelled(s: Seq<char>) -> Option<nat> {
    if s.len() == 0 {
        None
    } else {
        match unit_bytes(suffix(s)) {
            Some(unit) => Some(scaled(written(s), unit)),
            None => None,
        }
    }
}

/// The texts that `Mem::from_str` takes: the empty one, and those that start
/// with a number and stay within 64 bits.
pub open spec fn mem_readable(s: Seq<char>) -> bool {
    s.len() > 0 ==> {
        &&& well_written(s)
        &&& unit_bytes(suffix(s)) matches Some(unit) ==> scales(written(s), unit)
    }
}

/// The processor quantity that `s` spells, in 65536ths of a core, if it spells
/// one.
pub open spec fn cpu_spelled(s: Seq<char>) -> Option<nat> {
    if s.len() == 0 || written(s).end < s.len() {
        None
    } else {
        Some(scaled(written(s), 0x1_0000))
    }
}

/// The texts that `Cpu::from_str` takes: the empty one, and those that start
/// with a number and stay within range.
pub open spec fn cpu_readable(s: Seq<char>) -> bool {
    s.len() > 0 ==> {
        let w = written(s);
        &&& w.whole_end > 0
        &&& w.whole_end < s.len() ==> is_ascii_char(s[w.whole_end])
        &&& w.whole <= u32::MAX
        &&& w.fraction <= u64::MAX
        &&& w.places <= u32::MAX
        &&& w.end == s.len() ==> {
            &&& scales(w, 0x1_0000)
            &&& scaled(w, 0x1_0000) <= u32::MAX
        }
    }
}

/// The parts of a quantity that starts with a number.
struct Parts {
    whole_end: usize,
    whole: Option<u64>,
    fraction: Option<u64>,
    places: usize,
    end: usize,
}

fn read_parts(cs: &Vec<char>) -> (p: Parts)
    ensures
        p.whole_end == written(cs@).whole_end,
        p.whole_end <= p.end <= cs.len(),
        p.end == written(cs@).end,
        p.places == written(cs@).places,
        match p.whole {
            Some(v) => v == written(cs@).whole,
            None => written(cs@).whole > u64::MAX,
        },
        match p.fraction {
            Some(v) => v == written(cs@).fraction,
            None => written(cs@).fraction > u64::MAX,
        },
{
    let whole_end: usize = find_digits_end(cs, 0);
    proof {
        text::lemma_digits_end_bounds(cs@, 0);
    }
    let whole = parse_decimal(cs, 0, whole_end);
    if whole_end < cs.len() && cs[whole_end] == '.' {
        let start: usize = whole_end + 1;
        let end: usize = find_digits_end(cs, start);
        proof {
            text::lemma_digits_end_bounds(cs@, start as int);
        }
        let fraction = parse_decimal(cs, start, end);
        Parts { whole_end, whole, fraction, places: end - start, end }
    } else {
        Parts { whole_end, whole, fraction: Some(0), places: 0, end: whole_end }
    }
}

/// `scaled`, or `None` where it leaves `u64` on the way.
fn scale(whole: u64, fraction: u64, places: usize, unit: u64, w: Ghost<Written>) -> (r: Option<u64>)
    requires
        whole == w@.whole,
        fraction == w@.fraction,
        places == w@.places,
    ensures
        match r {
            Some(v) => scales(w@, unit as nat) && v == scaled(w@, unit as nat),
            None => !scales(w@, unit as nat),
        },
{
    let a: u64 = match whole.checked_mul(unit) {
        Some(a) => a,
        None => return None,
    };
    let b: u64 = match fraction.checked_mul(unit) {
        Some(b) => b,
        None => return None,
    };
    let p: u64 = match checked_pow10(places) {
        Some(p) => p,
        None => return None,
    };
    proof {
        text::lemma_pow10_monotonic(0, places as nat);
    }
    a.checked_add(b / p)
}

/// The unit that follows position `from`, in bytes.
fn read_unit(cs: &Vec<char>, from: usize) -> (r: Option<u64>)
    requires
        from <= cs.len(),
    ensures
        match r {
            Some(unit) => unit_bytes(cs@.skip(from as int)) == Some(unit as nat),
            None => unit_bytes(cs@.skip(from as int)) is None,
        },
{
    if rest_is(cs, from, "") || rest_is(cs, from, "B") {
        Some(0x1)
    } else if rest_is(cs, from, "KiB") {
        Some(0x400)
    } else if rest_is(cs, from, "MiB") {
        Some(0x10_0000)
    } else if rest_is(cs, from, "GiB") {
        Some(0x4000_0000)
    } else if rest_is(cs, from, "TiB") {
        Some(0x100_0000_0000)
    } else if rest_is(cs, from, "PiB") {
        Some(0x4_0000_0000_0000)
    } else if rest_is(cs, from, "EiB") {
        Some(0x1000_0000_0000_0000)
    } else {
        None
    }
}

fn ascii_at(cs: &Vec<char>, i: usize) -> (r: bool)
    ensures
        r == (i < cs.len() ==> is_ascii_char(cs@[i as int])),
{
    if i < cs.len() {
        (cs[i] as u32) < 128
    } else {
        true
    }
}

impl Mem {
    /// A byte.
    pub const B: u64 = 0x1;

    /// The bytes in a kibibyte.
    pub const KIB: u64 = 0x400;

    /// The bytes in a mebibyte.
    pub const MIB: u64 = 0x10_0000;

    /// The bytes in a gibibyte.
    pub const GIB: u64 = 0x4000_0000;

    /// The bytes in a tebibyte.
    pub const TIB: u64 = 0x100_0000_0000;

    /// The bytes in a pebibyte.
    pub const PIB: u64 = 0x4_0000_0000_0000;

    /// The bytes in an exbibyte.
    pub const EIB: u64 = 0x1000_0000_0000_0000;

    /// Reads a memory size, or gives `None` for a text that `from_str` does not
    /// take.
    pub fn try_read(s: &str) -> (r: Option<Result<Mem, ()>>)
        ensures
            match r {
                None => !mem_readable(s@),
                Some(Ok(m)) => mem_readable(s@) && mem_spelled(s@) == Some(m.0 as nat),
                Some(Err(())) => mem_readable(s@) && mem_spelled(s@) is None,
            },
    {
        let cs = chars(s);
        if cs.len() == 0 {
            return Some(Err(()));
        }
        let p = read_parts(&cs);
        if p.whole_end == 0 || !ascii_at(&cs, p.whole_end) || !ascii_at(&cs, p.end) {
            return None;
        }
        if p.places as u64 > u32::MAX as u64 {
            return None;
        }
        let whole: u64 = match p.whole {
            Some(v) => v,
            None => return None,
        };
        let fraction: u64 = match p.fraction {
            Some(v) => v,
            None => return None,
        };
        let start: usize = if p.end < cs.len() && p.end + 1 < cs.len() && cs[p.end] == ' ' {
            p.end + 1
        } else {
            p.end
        };
        match read_unit(&cs, start) {
            None => Some(Err(())),
            Some(unit) => match scale(whole, fraction, p.places, unit, Ghost(written(s@))) {
                Some(v) => Some(Ok(Mem(v))),
                None => None,
            },
        }
    }

    /// Reads a memory size such as `800 MiB` or `1.5GiB`. A fraction of a byte
    /// is dropped.
    pub fn from_str(s: &str) -> (r: Result<Mem, ()>)
        requires
            mem_readable(s@),
        ensures
            match r {
                Ok(m) => mem_spelled(s@) == Some(m.0 as nat),
                Err(()) => mem_spelled(s@) is None,
            },
    {
        Mem::try_read(s).unwrap()
    }

    /// The size in bytes followed by `B`.
    pub fn to_string(&self) -> (r: String)
        ensures
            r@ == text::decimal_text(self.0 as nat).push('B'),
    {
        let mut r = format_decimal(self.0);
        r.push('B');
        r
    }
}

impl Cpu {
    /// The units in one core.
    pub const CORE: u32 = 0x1_0000;

    /// Reads a processor quantity, or gives `None` for a text that `from_str`
    /// does not take.
    pub fn try_read(s: &str) -> (r: Option<Result<Cpu, ()>>)
        ensures
            match r {
                None => !cpu_readable(s@),
                Some(Ok(c)) => cpu_readable(s@) && cpu_spelled(s@) == Some(c.0 as nat),
                Some(Err(())) => cpu_readable(s@) && cpu_spelled(s@) is None,
            },
    {
        let cs = chars(s);
        if cs.len() == 0 {
            return Some(Err(()));
        }
        let p = read_parts(&cs);
        if p.whole_end == 0 || !ascii_at(&cs, p.whole_end) {
            return None;
        }
        if p.places as u64 > u32::MAX as u64 {
            return None;
        }
        let whole: u64 = match p.whole {
            Some(v) => v,
            None => return None,
        };
        let fraction: u64 = match p.fraction {
            Some(v) => v,
            None => return None,
        };
        if whole > u32::MAX as u64 {
            return None;
        }
        if p.end < cs.len() {
            return Some(Err(()));
        }
        match scale(whole, fraction, p.places, 0x1_0000, Ghost(written(s@))) {
            Some(v) => if v <= u32::MAX as u64 {
                Some(Ok(Cpu(v as u32)))
            } else {
                None
            },
            None => None,
        }
    }

    /// Reads a number of cores such as `4` or `0.5`. What is less than one
    /// 65536th of a core is dropped.
    pub fn from_str(s: &str) -> (r: Result<Cpu, ()>)
        requires
            cpu_readable(s@),
        ensures
            match r {
                Ok(c) => cpu_spelled(s@) == Some(c.0 as nat),
                Err(()) => cpu_spelled(s@) is None,
            },
    {
        Cpu::try_read(s).unwrap()
    }

    /// A whole number of cores; `None` if there are more than fit.
    pub fn visit_u64(value: u64) -> (r: Option<Cpu>)
        requires
            value * 0x1_0000 <= u64::MAX,
        ensures
            match r {
                Some(c) => c.0 == value * 0x1_0000,
                None => value * 0x1_0000 > u32::MAX,
            },
    {
        let units: u64 = value * 0x1_0000;
        if units <= u32::MAX as u64 {
            Some(Cpu(units as u32))
        } else {
            None
        }
    }

    /// A whole number of cores; `None` if it is negative or more than fit.
    pub fn visit_i64(value: i64) -> (r: Option<Cpu>)
        requires
            value * 0x1_0000 <= u64::MAX,
        ensures
            match r {
                Some(c) => c.0 == value * 0x1_0000,
                None => value < 0 || value * 0x1_0000 > u32::MAX,
            },
    {
        if value < 0 {
            None
        } else {
            Cpu::visit_u64(value as u64)
        }
    }
}

impl Mem {
    /// Adds `rhs`.
    pub fn add_assign(&mut self, rhs: Mem)
        requires
            old(self).0 + rhs.0 <= u64::MAX,
        ensures
            final(self).0 == old(self).0 + rhs.0,
    {
        *self = *self + rhs;
    }

    /// Takes `rhs` away.
    pub fn sub_assign(&mut self, rhs: Mem)
        requires
            rhs.0 <= old(self).0,
        ensures
            final(self).0 == old(self).0 - rhs.0,
    {
        *self = *self - rhs;
    }

    /// Multiplies by `rhs`.
    pub fn mul_assign(&mut self, rhs: u64)
        requires
            old(self).0 * rhs <= u64::MAX,
        ensures
            final(self).0 == old(self).0 * rhs,
    {
        *self = *self * rhs;
    }

    /// Divides by `rhs`, rounding down.
    pub fn div_assign(&mut self, rhs: u64)
        requires
            rhs != 0,
        ensures
            final(self).0 == old(self).0 / rhs,
    {
        *self = *self / rhs;
    }
}

impl Cpu {
    /// Adds `rhs`.
    pub fn add_assign(&mut self, rhs: Cpu)
        requires
            old(self).0 + rhs.0 <= u32::MAX,
        ensures
            final(self).0 == old(self).0 + rhs.0,
    {
        *self = *self + rhs;
    }

    /// Takes `rhs` away.
    pub fn sub_assign(&mut self, rhs: Cpu)
        requires
            rhs.0 <= old(self).0,
        ensures
            final(self).0 == old(self).0 - rhs.0,
    {
        *self = *self - rhs;
    }

    /// Multiplies by `rhs`.
    pub fn mul_assign(&mut self, rhs: u32)
        requires
            old(self).0 * rhs <= u32::MAX,
        ensures
            final(self).0 == old(self).0 * rhs,
    {
        *self = *self * rhs;
    }

    /// Divides by `rhs`, rounding down.
    pub fn div_assign(&mut self, rhs: u32)
        requires
            rhs != 0,
        ensures
            final(self).0 == old(self).0 / rhs,
    {
        *self = *self / rhs;
    }
}

/// A whole number followed by a unit reads as that many of the unit, as long
/// as the product fits in 64 bits.
pub proof fn law_whole_mem_reads_back(n: u64, unit: Seq<char>)
    requires
        unit_bytes(unit) matches Some(bytes) && n * bytes <= u64::MAX,
    ensures
        mem_readable(text::decimal_text(n as nat) + unit),
        mem_spelled(text::decimal_text(n as nat) + unit) == Some(
            n as nat * unit_bytes(unit).unwrap(),
        ),
{
    let digits = text::decimal_text(n as nat);
    let s = digits + unit;
    text::lemma_decimal_text_reads_back(n as nat);
    reveal_strlit("");
    reveal_strlit("B");
    reveal_strlit("KiB");
    reveal_strlit("MiB");
    reveal_strlit("GiB");
    reveal_strlit("TiB");
    reveal_strlit("PiB");
    reveal_strlit("EiB");
    assert(unit.len() > 0 ==> unit[0] == 'B' || unit[0] == 'K' || unit[0] == 'M' || unit[0] == 'G'
        || unit[0] == 'T' || unit[0] == 'P' || unit[0] == 'E');
    assert forall|i: int| 0 <= i < digits.len() implies text::is_digit(#[trigger] s[i]) by {
        assert(s[i] == digits[i]);
    }
    if unit.len() > 0 {
        assert(s[digits.len() as int] == unit[0]);
    }
    text::lemma_digits_end_unique(s, 0, digits.len() as int);
    assert(s.take(digits.len() as int) =~= digits);
    assert(s.skip(digits.len() as int) =~= unit);
    assert(suffix(s) == unit);
    let w = written(s);
    let bytes = unit_bytes(unit).unwrap();
    assert(w.fraction * bytes == 0) by (nonlinear_arith)
        requires
            w.fraction == 0,
    ;
}

/// What `Mem::to_string` writes, `Mem::from_str` reads back.
pub proof fn law_mem_text_reads_back(m: Mem)
    ensures
        mem_readable(text::decimal_text(m.0 as nat).push('B')),
        mem_spelled(text::decimal_text(m.0 as nat).push('B')) == Some(m.0 as nat),
{
    reveal_strlit("B");
    law_whole_mem_reads_back(m.0, "B"@);
    assert(text::decimal_text(m.0 as nat).push('B') =~= text::decimal_text(m.0 as nat) + "B"@);
}

/// A whole number reads as that many cores, as long as they fit.
pub proof fn law_whole_cpu_reads_back(n: u32)
    requires
        n * Cpu::CORE <= u32::MAX,
    ensures
        cpu_readable(text::decimal_text(n as nat)),
        cpu_spelled(text::decimal_text(n as nat)) == Some((n * Cpu::CORE) as nat),
{
    let s = text::decimal_text(n as nat);
    text::lemma_decimal_text_reads_back(n as nat);
    text::lemma_digits_end_unique(s, 0, s.len() as int);
    assert(s.take(s.len() as int) =~= s);
}

impl AddSpecImpl<Mem> for Mem {
    open spec fn obeys_add_spec() -> bool {
        true
    }

    open spec fn add_req(self, rhs: Mem) -> bool {
        self.0 + rhs.0 <= u64::MAX
    }

    open spec fn add_spec(self, rhs: Mem) -> Mem {
        Mem((self.0 + rhs.0) as u64)
    }
}

impl core::ops::Add<Mem> for Mem {
    type Output = Mem;

    fn add(self, rhs: Mem) -> Mem {
        Mem(self.0 + rhs.0)
    }
}

impl SubSpecImpl<Mem> for Mem {
    open spec fn obeys_sub_spec() -> bool {
        true
    }

    open spec fn sub_req(self, rhs: Mem) -> bool {
        rhs.0 <= self.0
    }

    open spec fn sub_spec(self, rhs: Mem) -> Mem {
        Mem((self.0 - rhs.0) as u64)
    }
}

impl core::ops::Sub<Mem> for Mem {
    type Output = Mem;

    fn sub(self, rhs: Mem) -> Mem {
        Mem(self.0 - rhs.0)
    }
}

impl MulSpecImpl<u64> for Mem {
    open spec fn obeys_mul_spec() -> bool {
        true
    }

    open spec fn mul_req(self, rhs: u64) -> bool {
        self.0 * rhs <= u64::MAX
    }

    open spec fn mul_spec(self, rhs: u64) -> Mem {
        Mem((self.0 * rhs) as u64)
    }
}

impl core::ops::Mul<u64> for Mem {
    type Output = Mem;

    fn mul(self, rhs: u64) -> Mem {
        Mem(self.0 * rhs)
    }
}

impl MulSpecImpl<Mem> for u64 {
    open spec fn obeys_mul_spec() -> bool {
        true
    }

    open spec fn mul_req(self, rhs: Mem) -> bool {
        rhs.0 * self <= u64::MAX
    }

    open spec fn mul_spec(self, rhs: Mem) -> Mem {
        Mem((rhs.0 * self) as u64)
    }
}

impl core::ops::Mul<Mem> for u64 {
    type Output = Mem;

    fn mul(self, rhs: Mem) -> Mem {
        Mem(rhs.0 * self)
    }
}

impl DivSpecImpl<u64> for Mem {
    open spec fn obeys_div_spec() -> bool {
        true
    }

    open spec fn div_req(self, rhs: u64) -> bool {
        rhs != 0
    }

    open spec fn div_spec(self, rhs: u64) -> Mem {
        Mem(self.0 / rhs)
    }
}

impl core::ops::Div<u64> for Mem {
    type Output = Mem;

    fn div(self, rhs: u64) -> Mem {
        Mem(self.0 / rhs)
    }
}

impl AddSpecImpl<Cpu> for Cpu {
    open spec fn obeys_add_spec() -> bool {
        true
    }

    open spec fn add_req(self, rhs: Cpu) -> bool {
        self.0 + rhs.0 <= u32::MAX
    }

    open spec fn add_spec(self, rhs: Cpu) -> Cpu {
        Cpu((self.0 + rhs.0) as u32)
    }
}

impl core::ops::Add<Cpu> for Cpu {
    type Output = Cpu;

    fn add(self, rhs: Cpu) -> Cpu {
        Cpu(self.0 + rhs.0)
    }
}

impl SubSpecImpl<Cpu> for Cpu {
    open spec fn obeys_sub_spec() -> bool {
        true
    }

    open spec fn sub_req(self, rhs: Cpu) -> bool {
        rhs.0 <= self.0
    }

    open spec fn sub_spec(self, rhs: Cpu) -> Cpu {
        Cpu((self.0 - rhs.0) as u32)
    }
}

impl core::ops::Sub<Cpu> for Cpu {
    type Output = Cpu;

    fn sub(self, rhs: Cpu) -> Cpu {
        Cpu(self.0 - rhs.0)
    }
}

impl MulSpecImpl<u32> for Cpu {
    open spec fn obeys_mul_spec() -> bool {
        true
    }

    open spec fn mul_req(self, rhs: u32) -> bool {
        self.0 * rhs <= u32::MAX
    }

    open spec fn mul_spec(self, rhs: u32) -> Cpu {
        Cpu((self.0 * rhs) as u32)
    }
}

impl core::ops::Mul<u32> for Cpu {
    type Output = Cpu;

    fn mul(self, rhs: u32) -> Cpu {
        Cpu(self.0 * rhs)
    }
}

impl MulSpecImpl<Cpu> for u32 {
    open spec fn obeys_mul_spec() -> bool {
        true
    }

    open spec fn mul_req(self, rhs: Cpu) -> bool {
        rhs.0 * self <= u32::MAX
    }

    open spec fn mul_spec(self, rhs: Cpu) -> Cpu {
        Cpu((rhs.0 * self) as u32)
    }
}

impl core::ops::Mul<Cpu> for u32 {
    type Output = Cpu;

    fn mul(self, rhs: Cpu) -> Cpu {
        Cpu(rhs.0 * self)
    }
}

impl DivSpecImpl<u32> for Cpu {
    open spec fn obeys_div_spec() -> bool {
        true
    }

    open spec fn div_req(self, rhs: u32) -> bool {
        rhs != 0
    }

    open spec fn div_spec(self, rhs: u32) -> Cpu {
        Cpu(self.0 / rhs)
    }
}

impl core::ops::Div<u32> for Cpu {
    type Output = Cpu;

    fn div(self, rhs: u32) -> Cpu {
        Cpu(self.0 / rhs)
    }
}

proof fn lemma_spelled(digits: Seq<char>, space: bool, unit: Seq<char>)
    requires
        digits.len() > 0,
        forall|i: int| 0 <= i < digits.len() ==> text::is_digit(#[trigger] digits[i]),
        unit.len() > 0,
        !text::is_digit(unit[0]),
        unit[0] != '.',
        unit[0] != ' ',
    ensures
        ({
            let s = digits + (if space {
                seq![' ']
            } else {
                seq![]
            }) + unit;
            let w = written(s);
            &&& suffix(s) == unit
            &&& w.whole == text::decimal(digits)
            &&& w.fraction == 0
            &&& w.places == 0
            &&& w.whole_end == digits.len()
            &&& w.end == digits.len()
        }),
{
    let s = digits + (if space {
        seq![' ']
    } else {
        seq![]
    }) + unit;
    assert forall|i: int| 0 <= i < digits.len() implies text::is_digit(#[trigger] s[i]) by {
        assert(s[i] == digits[i]);
    }
    if space {
        assert(s[digits.len() as int] == ' ');
        assert(s.skip((digits.len() + 1) as int) =~= unit);
    } else {
        assert(s[digits.len() as int] == unit[0]);
        assert(s.skip(digits.len() as int) =~= unit);
    }
    text::lemma_digits_end_unique(s, 0, digits.len() as int);
    assert(s.take(digits.len() as int) =~= digits);
}

/// Each unit is 1024 times the one before it, and a number before it, with or
/// without a space between them, says how many of it there are.
pub proof fn law_units_are_powers_of_1024(n: u64, space: bool)
    ensures
        ({
            let digits = text::decimal_text(n as nat) + (if space {
                seq![' ']
            } else {
                seq![]
            });
            &&& mem_spelled(digits + "B"@) == Some(n as nat * (1))
            &&& mem_spelled(digits + "KiB"@) == Some(n as nat * (1024))
            &&& mem_spelled(digits + "MiB"@) == Some(n as nat * (1024 * 1024))
            &&& mem_spelled(digits + "GiB"@) == Some(n as nat * (1024 * 1024 * 1024))
            &&& mem_spelled(digits + "TiB"@) == Some(n as nat * (1024 * 1024 * 1024 * 1024))
            &&& mem_spelled(digits + "PiB"@) == Some(n as nat * (1024 * 1024 * 1024 * 1024 * 1024))
            &&& mem_spelled(digits + "EiB"@) == Some(n as nat * (1024 * 1024 * 1024 * 1024 * 1024 * 1024))
        }),
        mem_spelled(text::decimal_text(n as nat)) == Some(n as nat),
        Mem::B == 1,
        Mem::KIB == 1024 * Mem::B,
        Mem::MIB == 1024 * Mem::KIB,
        Mem::GIB == 1024 * Mem::MIB,
        Mem::TIB == 1024 * Mem::GIB,
        Mem::PIB == 1024 * Mem::TIB,
        Mem::EIB == 1024 * Mem::PIB,
{
    let number = text::decimal_text(n as nat);
    lemma_units();
    lemma_one_unit(n, space, "B"@, 1);
    lemma_one_unit(n, space, "KiB"@, 1024);
    lemma_one_unit(n, space, "MiB"@, 1024 * 1024);
    lemma_one_unit(n, space, "GiB"@, 1024 * 1024 * 1024);
    lemma_one_unit(n, space, "TiB"@, 1024 * 1024 * 1024 * 1024);
    lemma_one_unit(n, space, "PiB"@, 1024 * 1024 * 1024 * 1024 * 1024);
    lemma_one_unit(n, space, "EiB"@, 1024 * 1024 * 1024 * 1024 * 1024 * 1024);
    reveal_strlit("");
    law_whole_mem_reads_back(n, ""@);
    assert(number + ""@ =~= number);
}

proof fn lemma_units()
    ensures
        unit_bytes("B"@) == Some((1) as nat),
        "B"@.len() > 0,
        "B"@[0] == 'B',
        unit_bytes("KiB"@) == Some((1024) as nat),
        "KiB"@.len() > 0,
        "KiB"@[0] == 'K',
        unit_bytes("MiB"@) == Some((1024 * 1024) as nat),
        "MiB"@.len() > 0,
        "MiB"@[0] == 'M',
        unit_bytes("GiB"@) == Some((1024 * 1024 * 1024) as nat),
        "GiB"@.len() > 0,
        "GiB"@[0] == 'G',
        unit_bytes("TiB"@) == Some((1024 * 1024 * 1024 * 1024) as nat),
        "TiB"@.len() > 0,
        "TiB"@[0] == 'T',
        unit_bytes("PiB"@) == Some((1024 * 1024 * 1024 * 1024 * 1024) as nat),
        "PiB"@.len() > 0,
        "PiB"@[0] == 'P',
        unit_bytes("EiB"@) == Some((1024 * 1024 * 1024 * 1024 * 1024 * 1024) as nat),
        "EiB"@.len() > 0,
        "EiB"@[0] == 'E',
{
    reveal_strlit("");
    reveal_strlit("B");
    reveal_strlit("KiB");
    reveal_strlit("MiB");
    reveal_strlit("GiB");
    reveal_strlit("TiB");
    reveal_strlit("PiB");
    reveal_strlit("EiB");
    assert(""@.len() == 0 && "B"@.len() == 1);
    assert("KiB"@.len() == 3 && "KiB"@[0] == 'K');
    assert("MiB"@.len() == 3 && "MiB"@[0] == 'M');
    assert("GiB"@.len() == 3 && "GiB"@[0] == 'G');
    assert("TiB"@.len() == 3 && "TiB"@[0] == 'T');
    assert("PiB"@.len() == 3 && "PiB"@[0] == 'P');
    assert("EiB"@.len() == 3 && "EiB"@[0] == 'E');
}

proof fn lemma_one_unit(n: u64, space: bool, unit: Seq<char>, bytes: nat)
    requires
        unit_bytes(unit) == Some(bytes),
        unit.len() > 0,
        !text::is_digit(unit[0]),
        unit[0] != '.',
        unit[0] != ' ',
    ensures
        mem_spelled(
            text::decimal_text(n as nat) + (if space {
                seq![' ']
            } else {
                seq![]
            }) + unit,
        ) == Some(n as nat * bytes),
{
    let number = text::decimal_text(n as nat);
    text::lemma_decimal_text_reads_back(n as nat);
    lemma_spelled(number, space, unit);
    lemma_no_fraction(n as nat, bytes);
}

proof fn lemma_no_fraction(n: nat, unit: nat)
    ensures
        n * unit + (0 * unit) / text::pow10(0) == n * unit,
{
    assert(0 * unit == 0) by (nonlinear_arith);
}

/// A number with a point is read exactly, and only what is less than a byte is
/// dropped: what is read is no more than what is written, and less than one byte
/// below it.
pub proof fn law_fractions_are_read_exactly(whole: Seq<char>, places: Seq<char>)
    requires
        whole.len() > 0,
        forall|i: int| 0 <= i < whole.len() ==> text::is_digit(#[trigger] whole[i]),
        forall|i: int| 0 <= i < places.len() ==> text::is_digit(#[trigger] places[i]),
    ensures
        ({
            let s = whole + "."@ + places;
            let tens = text::pow10(places.len());
            let exact = text::decimal(whole) * tens + text::decimal(places);
            &&& mem_spelled(s) matches Some(bytes) && bytes * tens <= exact < (bytes + 1) * tens
            &&& mem_spelled(s + "MiB"@) matches Some(bytes) && bytes * tens <= exact * (1024 * 1024)
                < (bytes + 1) * tens
            &&& cpu_spelled(s) matches Some(units) && units * tens <= exact * 65536 < (units + 1)
                * tens
        }),
{
    reveal_strlit(".");
    reveal_strlit("");
    reveal_strlit("B");
    reveal_strlit("KiB");
    reveal_strlit("MiB");
    lemma_pointed(whole, places, ""@);
    lemma_pointed(whole, places, "MiB"@);
    let s = whole + "."@ + places;
    assert(s + ""@ =~= s);
    text::lemma_pow10_monotonic(0, places.len());
    let tens = text::pow10(places.len());
    lemma_rounded(text::decimal(whole), text::decimal(places), tens, 1);
    lemma_rounded(text::decimal(whole), text::decimal(places), tens, 1024 * 1024);
    lemma_rounded(text::decimal(whole), text::decimal(places), tens, 65536);
}

proof fn lemma_rounded(whole: nat, fraction: nat, tens: nat, unit: nat)
    requires
        tens > 0,
    ensures
        ({
            let r = whole * unit + (fraction * unit) / tens;
            r * tens <= (whole * tens + fraction) * unit < (r + 1) * tens
        }),
{
    let part = fraction * unit;
    let q = part / tens;
    vstd::arithmetic::div_mod::lemma_fundamental_div_mod(part as int, tens as int);
    vstd::arithmetic::div_mod::lemma_mod_bound(part as int, tens as int);
    assert((whole * unit + q) * tens == whole * unit * tens + tens * q) by (nonlinear_arith);
    assert((whole * unit + q + 1) * tens == whole * unit * tens + tens * q + tens)
        by (nonlinear_arith);
    assert((whole * tens + fraction) * unit == whole * unit * tens + part) by (nonlinear_arith)
        requires
            part == fraction * unit,
    ;
}

proof fn lemma_pointed(whole: Seq<char>, places: Seq<char>, unit: Seq<char>)
    requires
        whole.len() > 0,
        forall|i: int| 0 <= i < whole.len() ==> text::is_digit(#[trigger] whole[i]),
        forall|i: int| 0 <= i < places.len() ==> text::is_digit(#[trigger] places[i]),
        unit.len() > 0 ==> !text::is_digit(unit[0]) && unit[0] != ' ',
    ensures
        ({
            let s = whole + "."@ + places + unit;
            let w = written(s);
            &&& w.whole == text::decimal(whole)
            &&& w.fraction == text::decimal(places)
            &&& w.places == places.len()
            &&& w.end == whole.len() + 1 + places.len()
            &&& suffix(s) == unit
        }),
{
    reveal_strlit(".");
    let s = whole + "."@ + places + unit;
    let a = whole.len() as int;
    let b = a + 1 + places.len();
    assert forall|i: int| 0 <= i < a implies text::is_digit(#[trigger] s[i]) by {
        assert(s[i] == whole[i]);
    }
    assert(s[a] == '.');
    text::lemma_digits_end_unique(s, 0, a);
    assert(s.take(a) =~= whole);
    assert forall|i: int| a + 1 <= i < b implies text::is_digit(#[trigger] s[i]) by {
        assert(s[i] == places[i - a - 1]);
    }
    if unit.len() > 0 {
        assert(s[b] == unit[0]);
    }
    text::lemma_digits_end_unique(s, a + 1, b);
    assert(s.subrange(a + 1, b) =~= places);
    assert(s.skip(b) =~= unit);
}

/// Only those units are read, spelt like that, and nothing but a number is read as
/// cores.
pub proof fn law_other_units_are_refused(digits: Seq<char>, unit: Seq<char>)
    requires
        digits.len() > 0,
        forall|i: int| 0 <= i < digits.len() ==> text::is_digit(#[trigger] digits[i]),
        unit.len() > 0,
        !text::is_digit(unit[0]),
        unit[0] != '.',
        unit[0] != ' ',
        unit.len() != 3 || unit[1] != 'i' || unit[2] != 'B',
        unit.len() != 1 || unit[0] != 'B',
    ensures
        mem_spelled(digits + unit) is None,
        cpu_spelled(digits + unit) is None,
        mem_spelled(seq![]) is None,
        cpu_spelled(seq![]) is None,
{
    reveal_strlit("");
    reveal_strlit("B");
    reveal_strlit("KiB");
    reveal_strlit("MiB");
    reveal_strlit("GiB");
    reveal_strlit("TiB");
    reveal_strlit("PiB");
    reveal_strlit("EiB");
    lemma_spelled(digits, false, unit);
    assert(digits + seq![] + unit =~= digits + unit);
}

/// Amounts of memory and of cores are counted like numbers: what is added can be taken
/// away again, and taking an amount several times and dividing it gives it back.
pub proof fn law_amounts_are_numbers(a: Mem, b: Mem, n: u64, c: Cpu, d: Cpu, m: u32)
    requires
        a.0 + b.0 <= u64::MAX,
        c.0 + d.0 <= u32::MAX,
        0 < n,
        0 < m,
        a.0 * n <= u64::MAX,
        c.0 * m <= u32::MAX,
    ensures
        AddSpec::add_spec(a, b).0 == a.0 + b.0,
        SubSpec::sub_spec(AddSpec::add_spec(a, b), b) == a,
        MulSpec::mul_spec(a, n).0 == a.0 * n,
        DivSpec::div_spec(MulSpec::mul_spec(a, n), n) == a,
        MulSpec::<Mem>::mul_spec(n, a) == MulSpec::mul_spec(a, n),
        AddSpec::add_spec(c, d).0 == c.0 + d.0,
        SubSpec::sub_spec(AddSpec::add_spec(c, d), d) == c,
        MulSpec::mul_spec(c, m).0 == c.0 * m,
        DivSpec::div_spec(MulSpec::mul_spec(c, m), m) == c,
        MulSpec::<Cpu>::mul_spec(m, c) == MulSpec::mul_spec(c, m),
{
    vstd::arithmetic::div_mod::lemma_div_multiples_vanish(a.0 as int, n as int);
    vstd::arithmetic::div_mod::lemma_div_multiples_vanish(c.0 as int, m as int);
    vstd::arithmetic::mul::lemma_mul_is_commutative(a.0 as int, n as int);
    vstd::arithmetic::mul::lemma_mul_is_commutative(c.0 as int, m as int);
}

} // verus!
