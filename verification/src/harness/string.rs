//! The characters of a string, one after the other.

use crate::text::chars;
use vstd::prelude::*;

verus! {

/// What is left of the characters of a string.
#[derive(Clone, Debug)]
pub struct Chars {
    chars: Vec<char>,
    at: usize,
}

impl Chars {
    /// The characters that are left.
    pub closed spec fn left(&self) -> Seq<char> {
        self.chars@.skip(self.at as int)
    }

    /// Whether this was made by `new` and gone through by `next`.
    pub closed spec fn wf(&self) -> bool {
        self.at <= self.chars.len()
    }

    /// All characters of `s`.
    pub fn new(s: String) -> (r: Chars)
        ensures
            r.wf(),
            r.left() == s@,
    {
        let r = Chars { chars: chars(s.as_str()), at: 0 };
        assert(r.left() =~= s@);
        r
    }

    /// The next character; `None` if there is none left.
    pub fn next(&mut self) -> (r: Option<char>)
        requires
            old(self).wf(),
        ensures
            final(self).wf(),
            match r {
                Some(c) => old(self).left().len() > 0 && c == old(self).left()[0]
                    && final(self).left() == old(self).left().skip(1),
                None => old(self).left().len() == 0 && final(self).left() == old(self).left(),
            },
    {
        if self.at < self.chars.len() {
            let c = self.chars[self.at];
            self.at += 1;
            assert(self.left() =~= old(self).left().skip(1));
            Some(c)
        } else {
            None
        }
    }
}

/// The expectation that is written in the first lines of a program: what follows
/// `//=` in each of them, up to the first line that does not start so.
pub open spec fn expectation(lines: Seq<Seq<char>>) -> Seq<char>
    decreases lines.len(),
{
    if lines.len() > 0 && marked(lines[0]) {
        lines[0].skip(3) + expectation(lines.skip(1))
    } else {
        seq![]
    }
}

/// Whether a line starts with `//=`.
pub open spec fn marked(line: Seq<char>) -> bool {
    line.len() >= 3 && line[0] == '/' && line[1] == '/' && line[2] == '='
}

/// The texts of several lines.
pub open spec fn texts(lines: Seq<String>) -> Seq<Seq<char>> {
    lines.map_values(|line: String| line@)
}

/// The expectation that is written in the first of `lines`.
pub fn read_expectation(lines: &Vec<String>) -> (r: Vec<char>)
    ensures
        r@ == expectation(texts(lines@)),
{
    let mut r: Vec<char> = Vec::new();
    let ghost all = texts(lines@);
    let mut i: usize = 0;
    assert(all.skip(0) =~= all);
    assert(r@ + expectation(all) =~= expectation(all));
    while i < lines.len()
        invariant
            i <= lines.len(),
            all == texts(lines@),
            r@ + expectation(all.skip(i as int)) == expectation(all),
        decreases lines.len() - i,
    {
        let line = chars(lines[i].as_str());
        assert(all.skip(i as int)[0] == line@);
        if !(line.len() >= 3 && line[0] == '/' && line[1] == '/' && line[2] == '=') {
            assert(r@ + expectation(all.skip(i as int)) =~= r@);
            return r;
        }
        let ghost before = r@;
        for k in 3..line.len()
            invariant
                line.len() >= 3,
                r@ == before + line@.subrange(3, k as int),
        {
            r.push(line[k]);
            assert(r@ =~= before + line@.subrange(3, k + 1));
        }
        proof {
            assert(r@ =~= before + line@.skip(3));
            assert(all.skip(i as int).skip(1) =~= all.skip(i + 1));
            assert(before + (line@.skip(3) + expectation(all.skip(i + 1))) =~= r@ + expectation(
                all.skip(i + 1),
            ));
        }
        i += 1;
    }
    assert(r@ + expectation(all.skip(i as int)) =~= r@);
    r
}

/// Each line that starts with `//=` adds what follows that, and the first line that
/// does not ends the expectation, whatever comes after it.
pub proof fn law_marked_lines_are_read(text: Seq<char>, rest: Seq<Seq<char>>)
    ensures
        expectation(seq!["//="@ + text] + rest) == text + expectation(rest),
        !("//="@ =~= text.take(3)) || text.len() < 3 ==> expectation(seq![text] + rest) == Seq::<
            char,
        >::empty(),
        expectation(seq![]) == Seq::<char>::empty(),
{
    reveal_strlit("//=");
    let line = "//="@ + text;
    let lines = seq![line] + rest;
    assert(lines[0] == line);
    assert(line.skip(3) =~= text);
    assert(lines.skip(1) =~= rest);
    if !("//="@ =~= text.take(3)) || text.len() < 3 {
        assert((seq![text] + rest)[0] == text);
        if marked(text) {
            assert("//="@ =~= text.take(3));
        }
    }
}

} // verus!
