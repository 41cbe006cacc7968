//! Bytes written as text, each byte as the character of its number.

use crate::text::{chars, string};
use vstd::prelude::*;

verus! {

/// `bytes`, each as the character of its number.
pub open spec fn as_text(bytes: Seq<u8>) -> Seq<char> {
    Seq::new(bytes.len(), |i: int| bytes[i] as char)
}

/// Whether each character of `text` is that of a byte.
pub open spec fn is_binary(text: Seq<char>) -> bool {
    forall|i: int| 0 <= i < text.len() ==> (#[trigger] text[i]) <= '\u{ff}'
}

/// The numbers of the characters of `text`.
pub open spec fn as_bytes(text: Seq<char>) -> Seq<u8> {
    Seq::new(text.len(), |i: int| text[i] as u8)
}

/// `bytes` as text.
pub fn serialize(bytes: &[u8]) -> (r: String)
    ensures
        r@ == as_text(bytes@),
{
    let mut cs: Vec<char> = Vec::new();
    for i in 0..bytes.len()
        invariant
            cs@ == as_text(bytes@.take(i as int)),
    {
        cs.push(bytes[i] as char);
        assert(cs@ =~= as_text(bytes@.take(i + 1)));
    }
    assert(bytes@.take(bytes@.len() as int) =~= bytes@);
    string(&cs)
}

/// The bytes that `text` stands for; `None` if it does not stand for any.
pub fn try_deserialize(text: &str) -> (r: Option<Vec<u8>>)
    ensures
        match r {
            Some(bytes) => is_binary(text@) && bytes@ == as_bytes(text@),
            None => !is_binary(text@),
        },
{
    let cs = chars(text);
    let mut bytes: Vec<u8> = Vec::new();
    for i in 0..cs.len()
        invariant
            cs@ == text@,
            forall|j: int| 0 <= j < i ==> (#[trigger] text@[j]) <= '\u{ff}',
            bytes@ == as_bytes(text@.take(i as int)),
    {
        let c = cs[i];
        if c > '\u{ff}' {
            return None;
        }
        bytes.push(c as u8);
        assert(bytes@ =~= as_bytes(text@.take(i + 1)));
    }
    assert(text@.take(text@.len() as int) =~= text@);
    Some(bytes)
}

/// The bytes that `text` stands for.
pub fn deserialize(text: &str) -> (r: Vec<u8>)
    requires
        is_binary(text@),
    ensures
        r@ == as_bytes(text@),
{
    match try_deserialize(text) {
        Some(bytes) => bytes,
        None => Vec::new(),
    }
}

/// Bytes that are written as text read back as they were.
pub proof fn law_bytes_read_back(bytes: Seq<u8>)
    ensures
        is_binary(as_text(bytes)),
        as_bytes(as_text(bytes)) == bytes,
{
    assert(as_bytes(as_text(bytes)) =~= bytes);
}

proof fn lemma_char_of_byte(c: char)
    requires
        c <= '\u{ff}',
    ensures
        (c as u8) as char == c,
{
}

/// Text that stands for bytes is written again as it was.
pub proof fn law_text_is_written_back(text: Seq<char>)
    requires
        is_binary(text),
    ensures
        as_text(as_bytes(text)) == text,
{
    assert forall|i: int| 0 <= i < text.len() implies #[trigger] as_text(as_bytes(text))[i]
        == text[i] by {
        lemma_char_of_byte(text[i]);
    }
    assert(as_text(as_bytes(text)) =~= text);
}

} // verus!
