//! Strings as character sequences, and their length in bytes.

use vstd::prelude::*;
use vstd::utf8::encode_utf8;

verus! {

/// Number of bytes that `chars` occupies as UTF-8: what `len()` reports for
/// a string holding these characters.
pub open spec fn byte_len(chars: Seq<char>) -> nat {
    encode_utf8(chars).len()
}

/// Every character is ASCII.
pub open spec fn is_ascii(chars: Seq<char>) -> bool {
    vstd::utf8::is_ascii_chars(chars)
}

/// The byte length of a concatenation is the sum of the byte lengths.
pub proof fn lemma_byte_len_concat(a: Seq<char>, b: Seq<char>)
    ensures
        byte_len(a + b) == byte_len(a) + byte_len(b),
    decreases a.len(),
{
    if a.len() == 0 {
        assert(a + b =~= b);
    } else {
        assert((a + b).drop_first() =~= a.drop_first() + b);
        lemma_byte_len_concat(a.drop_first(), b);
    }
}

/// ASCII text occupies one byte per character.
pub proof fn lemma_byte_len_ascii(a: Seq<char>)
    requires
        is_ascii(a),
    ensures
        byte_len(a) == a.len(),
{
    vstd::utf8::is_ascii_chars_encode_utf8(a);
}

/// Length of `s` in bytes.
pub fn byte_length(s: &str) -> (n: usize)
    ensures
        n == byte_len(s@),
{
    broadcast use vstd::slice::group_slice_axioms;

    s.as_bytes().len()
}

/// `String::push`: appends one character to the end of the string.
#[verifier::external_body]
pub(crate) fn push_char(s: &mut String, c: char)
    ensures
        final(s)@ == old(s)@.push(c),
{
    s.push(c);
}

} // verus!
