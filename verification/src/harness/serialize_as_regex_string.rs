//! Bytes written as a regular expression that matches them.

use vstd::prelude::*;
use vstd::utf8::encode_utf8;

verus! {

/// Bytes that are written as a regular expression.
#[derive(Clone, Debug, PartialEq, Eq, Hash)]
pub struct SerializeAsRegexString(pub Vec<u8>);

/// Whether a character has a meaning of its own in a regular expression.
pub open spec fn is_meta(c: char) -> bool {
    "\\.+*?()|[]{}^$#&-~"@.contains(c)
}

/// `text` with a backslash before each character that has a meaning of its own.
pub open spec fn escaped(text: Seq<char>) -> Seq<char>
    decreases text.len(),
{
    if text.len() == 0 {
        seq![]
    } else {
        let rest = escaped(text.drop_last());
        if is_meta(text.last()) {
            rest.push('\\').push(text.last())
        } else {
            rest.push(text.last())
        }
    }
}

/// The text that `String::from_utf8_lossy` makes of some bytes.
pub uninterp spec fn lossy_text(bytes: Seq<u8>) -> Seq<char>;

/// `String::from_utf8_lossy`: bytes that are UTF-8 as the text that they encode;
/// of others, what cannot be decoded is replaced.
#[verifier::external_body]
fn from_utf8_lossy(bytes: &Vec<u8>) -> (r: String)
    ensures
        r@ == lossy_text(bytes@),
        forall|text: Seq<char>| #[trigger] encode_utf8(text) == bytes@ ==> r@ == text,
{
    String::from_utf8_lossy(bytes).into_owned()
}

/// `regex::escape`: puts a backslash before each character that has a meaning of
/// its own in a regular expression.
#[verifier::external_body]
fn regex_escape(text: &str) -> (r: String)
    ensures
        r@ == escaped(text@),
{
    regex::escape(text)
}

impl SerializeAsRegexString {
    /// The regular expression that is written.
    pub fn serialize(&self) -> (r: String)
        ensures
            r@ == escaped(lossy_text(self.0@)),
            forall|text: Seq<char>| #[trigger]
                encode_utf8(text) == self.0@ ==> r@ == escaped(text),
    {
        let text = from_utf8_lossy(&self.0);
        regex_escape(text.as_str())
    }
}

/// `text` without a backslash where one stands before another character.
pub open spec fn unescaped(text: Seq<char>) -> Seq<char>
    decreases text.len(),
{
    if text.len() == 0 {
        seq![]
    } else if text[0] == '\\' && text.len() > 1 {
        seq![text[1]] + unescaped(text.skip(2))
    } else {
        seq![text[0]] + unescaped(text.skip(1))
    }
}

proof fn lemma_escaped_front(text: Seq<char>)
    requires
        text.len() > 0,
    ensures
        escaped(text) == (if is_meta(text[0]) {
            seq!['\\', text[0]] + escaped(text.skip(1))
        } else {
            seq![text[0]] + escaped(text.skip(1))
        }),
    decreases text.len(),
{
    if text.len() == 1 {
        assert(text.drop_last() =~= seq![]);
        assert(text.skip(1) =~= seq![]);
        assert(escaped(text.drop_last()) =~= seq![]);
        if is_meta(text[0]) {
            assert(escaped(text) =~= seq!['\\', text[0]] + escaped(text.skip(1)));
        } else {
            assert(escaped(text) =~= seq![text[0]] + escaped(text.skip(1)));
        }
    } else {
        lemma_escaped_front(text.drop_last());
        assert(text.drop_last().skip(1) =~= text.skip(1).drop_last());
        assert(text.skip(1).last() == text.last());
        if is_meta(text[0]) {
            assert(escaped(text) =~= seq!['\\', text[0]] + escaped(text.skip(1)));
        } else {
            assert(escaped(text) =~= seq![text[0]] + escaped(text.skip(1)));
        }
    }
}

/// Nothing is lost by the backslashes: without them the text is as it was.
pub proof fn law_escaping_is_faithful(text: Seq<char>)
    ensures
        unescaped(escaped(text)) == text,
    decreases text.len(),
{
    if text.len() > 0 {
        lemma_escaped_front(text);
        law_escaping_is_faithful(text.skip(1));
        let rest = escaped(text.skip(1));
        reveal_strlit("\\.+*?()|[]{}^$#&-~");
        assert("\\.+*?()|[]{}^$#&-~"@[0] == '\\');
        assert(is_meta('\\'));
        if is_meta(text[0]) {
            let all = seq!['\\', text[0]] + rest;
            assert(all.skip(2) =~= rest);
        } else {
            let all = seq![text[0]] + rest;
            assert(all.skip(1) =~= rest);
        }
        assert(unescaped(escaped(text)) =~= seq![text[0]] + text.skip(1));
        assert(seq![text[0]] + text.skip(1) =~= text);
    }
}

} // verus!
