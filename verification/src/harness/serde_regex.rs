//! Regular expressions for the output of a program. They always stand for all of
//! it.

use super::serialize_as_regex_string::escaped;
use crate::text::{chars, string};
use vstd::prelude::*;
use vstd::utf8::encode_utf8;

verus! {

/// A regular expression that stands for all of the output of a program.
#[derive(Debug, PartialEq, Eq, Hash)]
pub struct SerdeRegex {
    /// The expression from the start of the output to its end.
    pattern: String,
}

/// Whether `regex::bytes::RegexBuilder::build` takes `pattern`, where a dot stands
/// for any byte, on a machine whose pointers have `width` bits. It refuses what is
/// no expression, and one whose states take more memory than it allows; how much a
/// state takes depends on that width.
pub uninterp spec fn regex_valid(width: u32, pattern: Seq<char>) -> bool;

/// Whether `text` matches `pattern`, with `regex::bytes::Regex::is_match`, where
/// a dot stands for any byte.
pub uninterp spec fn regex_matches(pattern: Seq<char>, text: Seq<u8>) -> bool;

/// Up to how many bytes a text is sure to have an expression of its own. The
/// crate takes one state for each byte of a literal and a handful besides, and
/// refuses an expression whose states take more than ten mebibytes. A state holds
/// little more than a vector, and this leaves room for more than a hundred bytes
/// for each.
pub const LITERAL_LIMIT: usize = 0x1_0000;

/// `regex::bytes::RegexBuilder::build`: whether it takes the pattern. It takes the
/// pattern for all of an escaped text that has at most `LITERAL_LIMIT` bytes.
#[verifier::external_body]
fn regex_build(pattern: &str) -> (r: bool)
    ensures
        r == regex_valid(usize::BITS, pattern@),
        forall|literal: Seq<char>|
            pattern@ == whole(#[trigger] escaped(literal)) && encode_utf8(literal).len()
                <= LITERAL_LIMIT ==> r,
{
    let mut builder = regex::bytes::RegexBuilder::new(pattern);
    builder.unicode(false).dot_matches_new_line(true).build().is_ok()
}

/// `regex::bytes::Regex::is_match`: whether the text matches the pattern, which
/// `regex::bytes::RegexBuilder::build` takes. The pattern for all of an escaped
/// text matches that text alone.
#[verifier::external_body]
fn regex_match(pattern: &str, text: &Vec<u8>) -> (r: bool)
    requires
        regex_valid(usize::BITS, pattern@),
    ensures
        r == regex_matches(pattern@, text@),
        forall|literal: Seq<char>|
            pattern@ == whole(#[trigger] escaped(literal)) ==> r == (text@ == encode_utf8(literal)),
{
    let mut builder = regex::bytes::RegexBuilder::new(pattern);
    builder.unicode(false).dot_matches_new_line(true).build().unwrap().is_match(text)
}

/// The expression for all of the output, of which a part is `value`.
pub open spec fn whole(value: Seq<char>) -> Seq<char> {
    "^"@ + value + "$"@
}

/// Whether `pattern` stands for all of the output.
pub open spec fn is_whole(pattern: Seq<char>) -> bool {
    pattern.len() >= 2 && pattern[0] == '^' && pattern.last() == '$'
}

impl View for SerdeRegex {
    type V = Seq<char>;

    closed spec fn view(&self) -> Seq<char> {
        self.pattern@
    }
}

impl SerdeRegex {
    /// The expression is one, and stands for all of the output.
    #[verifier::type_invariant]
    closed spec fn inv(self) -> bool {
        regex_valid(usize::BITS, self.pattern@) && is_whole(self.pattern@)
    }

    /// Reads an expression; `None` if it is none. That for an escaped text of at
    /// most `LITERAL_LIMIT` bytes is one.
    pub fn deserialize(value: &str) -> (r: Option<SerdeRegex>)
        ensures
            match r {
                Some(regex) => regex_valid(usize::BITS, whole(value@)) && regex@ == whole(value@),
                None => !regex_valid(usize::BITS, whole(value@)),
            },
            forall|literal: Seq<char>|
                value@ == #[trigger] escaped(literal) && encode_utf8(literal).len()
                    <= LITERAL_LIMIT ==> r is Some,
    {
        let pattern = String::from_str("^").concat(value).concat("$");
        proof {
            reveal_strlit("^");
            reveal_strlit("$");
        }
        if regex_build(pattern.as_str()) {
            Some(SerdeRegex { pattern })
        } else {
            None
        }
    }

    /// Whether the expression matches `text`. That for an escaped text matches
    /// that text alone.
    pub fn is_match(&self, text: &Vec<u8>) -> (r: bool)
        ensures
            r == regex_matches(self@, text@),
            forall|literal: Seq<char>|
                self@ == whole(#[trigger] escaped(literal)) ==> r == (text@ == encode_utf8(
                    literal,
                )),
    {
        proof {
            use_type_invariant(self);
        }
        regex_match(self.pattern.as_str(), text)
    }

    /// The expression as it was read.
    pub fn serialize(&self) -> (r: String)
        ensures
            whole(r@) == self@,
            r@ == self@.subrange(1, self@.len() - 1),
    {
        proof {
            use_type_invariant(self);
            reveal_strlit("^");
            reveal_strlit("$");
        }
        let cs = chars(self.pattern.as_str());
        let mut inner: Vec<char> = Vec::new();
        for i in 1..cs.len() - 1
            invariant
                cs.len() >= 2,
                1 <= i <= cs.len() - 1,
                inner@ == cs@.subrange(1, i as int),
        {
            inner.push(cs[i]);
            assert(inner@ =~= cs@.subrange(1, i + 1));
        }
        assert(whole(inner@) =~= self@);
        string(&inner)
    }
}

/// An expression is written as it was read.
pub proof fn law_expressions_are_written_back(value: Seq<char>)
    ensures
        is_whole(whole(value)),
        whole(value).subrange(1, whole(value).len() - 1) == value,
{
    reveal_strlit("^");
    reveal_strlit("$");
    assert(whole(value).subrange(1, whole(value).len() - 1) =~= value);
}

} // verus!
