//! Bytes read as text: each byte stands for the character of the same number.

use vstd::prelude::*;
use vstd::string::StringSliceAdditionalSpecFns;
use vstd::utf8::encode_utf8_decode_utf8;

verus! {

/// The characters that a run of bytes stands for, byte by byte: a byte `b` is
/// the character with code point `b`.
pub open spec fn latin1(bytes: Seq<u8>) -> Seq<char> {
    Seq::new(bytes.len(), |i: int| bytes[i] as char)
}

/// `String::push` of the standard library, which is documented to append the
/// given character to the end of the string. The contract says just that: the
/// characters after the call are those before it, followed by `ch`.
pub assume_specification[ String::push ](s: &mut String, ch: char)
    ensures
        final(s)@ == old(s)@.push(ch),
;

/// Appends to `text` the character that `byte` stands for.
pub fn push_byte(text: &mut String, byte: u8)
    ensures
        final(text)@ == old(text)@.push(byte as char),
{
    text.push(byte as char);
}

/// Reading one byte more extends the text by that byte's character.
pub proof fn lemma_latin1_push(bytes: Seq<u8>, byte: u8)
    ensures
        latin1(bytes.push(byte)) == latin1(bytes).push(byte as char),
{
    assert(latin1(bytes.push(byte)) =~= latin1(bytes).push(byte as char));
}

/// The text of a stretch of the buffer grows by one character when the
/// stretch grows by one byte.
pub proof fn lemma_latin1_subrange_step(s: Seq<u8>, from: int, to: int)
    requires
        0 <= from <= to < s.len(),
    ensures
        latin1(s.subrange(from, to + 1)) == latin1(s.subrange(from, to)).push(s[to] as char),
{
    assert(s.subrange(from, to + 1) =~= s.subrange(from, to).push(s[to]));
    lemma_latin1_push(s.subrange(from, to), s[to]);
}

/// Whether two texts hold the same characters. The texts are compared by
/// their bytes, which stand for one run of characters only.
pub fn same_text(one: &str, other: &str) -> (same: bool)
    ensures
        same == (one@ == other@),
{
    let left = one.as_bytes();
    let right = other.as_bytes();
    proof {
        encode_utf8_decode_utf8(one@);
        encode_utf8_decode_utf8(other@);
    }
    if left.len() != right.len() {
        return false;
    }
    let mut i: usize = 0;
    while i < left.len()
        invariant
            0 <= i <= left@.len(),
            left@.len() == right@.len(),
            left@ == one.spec_bytes(),
            right@ == other.spec_bytes(),
            forall|j: int| 0 <= j < i ==> left@[j] == right@[j],
        decreases left@.len() - i,
    {
        if left[i] != right[i] {
            return false;
        }
        i = i + 1;
    }
    assert(left@ =~= right@);
    true
}

} // verus!
