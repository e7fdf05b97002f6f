//! What std's strings do where the logic needs it, and how the characters of a
//! string lie in its bytes.

use vstd::prelude::*;
use vstd::utf8::*;

verus! {

/// `String::push` appends one character.
pub assume_specification[ String::push ](s: &mut String, ch: char)
    ensures
        final(s)@ == old(s)@.push(ch),
;

/// `String::split_off` cuts the bytes at `at`, which has to lie between two
/// characters: the string keeps the bytes before it and hands back the rest.
pub assume_specification[ String::split_off ](s: &mut String, at: usize) -> (tail: String)
    requires
        is_char_boundary(encode_utf8(old(s)@), at as int),
    ensures
        encode_utf8(final(s)@) == encode_utf8(old(s)@).subrange(0, at as int),
        encode_utf8(tail@) == encode_utf8(old(s)@).subrange(
            at as int,
            encode_utf8(old(s)@).len() as int,
        ),
;

/// `==` on string slices: the same characters in the same order.
#[verifier::external_body]
pub(crate) fn str_eq(a: &str, b: &str) -> (same: bool)
    ensures
        same == (a@ == b@),
{
    a == b
}

/// `str::starts_with` with a string slice as the pattern.
#[verifier::external_body]
pub(crate) fn str_starts_with(s: &str, prefix: &str) -> (found: bool)
    ensures
        found == prefix@.is_prefix_of(s@),
{
    s.starts_with(prefix)
}

/// The bytes of two texts one after the other are the bytes of the first
/// followed by the bytes of the second.
pub proof fn lemma_encode_concat(a: Seq<char>, b: Seq<char>)
    ensures
        encode_utf8(a + b) == encode_utf8(a) + encode_utf8(b),
    decreases a.len(),
{
    if a.len() == 0 {
        assert(a + b =~= b);
        assert(encode_utf8(a) + encode_utf8(b) =~= encode_utf8(b));
    } else {
        lemma_encode_concat(a.drop_first(), b);
        assert((a + b).drop_first() =~= a.drop_first() + b);
        assert(encode_utf8(a + b) =~= encode_utf8(a) + encode_utf8(b));
    }
}

/// Where one text ends and the next begins, the bytes have a character
/// boundary.
pub proof fn lemma_boundary_between(a: Seq<char>, b: Seq<char>)
    ensures
        is_char_boundary(encode_utf8(a + b), encode_utf8(a).len() as int),
    decreases a.len(),
{
    let bytes = encode_utf8(a + b);
    encode_utf8_valid_utf8(a + b);
    if a.len() == 0 {
    } else {
        let rest = a.drop_first() + b;
        assert((a + b).drop_first() =~= rest);
        encode_utf8_first_scalar(a + b);
        assert(pop_first_scalar(bytes) =~= encode_utf8(rest));
        lemma_boundary_between(a.drop_first(), b);
        lemma_encode_concat(a, b);
        assert(encode_utf8(a).len() == encode_scalar(a[0] as u32).len() + encode_utf8(
            a.drop_first(),
        ).len());
    }
}

/// Cutting the bytes of a text after its first `k` characters gives the bytes
/// of those characters and the bytes of the others.
pub proof fn lemma_split_at_chars(s: Seq<char>, k: int)
    requires
        0 <= k <= s.len(),
    ensures
        is_char_boundary(encode_utf8(s), encode_utf8(s.take(k)).len() as int),
        encode_utf8(s).subrange(0, encode_utf8(s.take(k)).len() as int) == encode_utf8(s.take(k)),
        encode_utf8(s).subrange(
            encode_utf8(s.take(k)).len() as int,
            encode_utf8(s).len() as int,
        ) == encode_utf8(s.skip(k)),
{
    assert(s =~= s.take(k) + s.skip(k));
    lemma_boundary_between(s.take(k), s.skip(k));
    lemma_encode_concat(s.take(k), s.skip(k));
    let head = encode_utf8(s.take(k));
    let tail = encode_utf8(s.skip(k));
    assert((head + tail).subrange(0, head.len() as int) =~= head);
    assert((head + tail).subrange(head.len() as int, (head + tail).len() as int) =~= tail);
}

/// Two texts with the same bytes are the same text.
pub proof fn lemma_encode_injective(a: Seq<char>, b: Seq<char>)
    requires
        encode_utf8(a) == encode_utf8(b),
    ensures
        a == b,
{
    encode_utf8_decode_utf8(a);
    encode_utf8_decode_utf8(b);
}

} // verus!
