//! The mathematical model of a repeated pattern: a character sequence
//! concatenated with itself a fixed number of times, and how the UTF-8
//! encoding of the whole relates to the encodings of the copies.
use vstd::prelude::*;

verus! {

use vstd::utf8::encode_utf8;
use vstd::utf8::encode_scalar;
use vstd::utf8::valid_utf8;
use vstd::utf8::is_char_boundary;

/// `u` concatenated with itself `n` times.
pub open spec fn repeat_chars(u: Seq<char>, n: nat) -> Seq<char>
    decreases n,
{
    if n == 0 {
        Seq::empty()
    } else {
        repeat_chars(u, (n - 1) as nat) + u
    }
}

/// Repeating `n` times yields `n` times the characters.
pub proof fn lemma_repeat_chars_len(u: Seq<char>, n: nat)
    ensures
        repeat_chars(u, n).len() == n * u.len(),
    decreases n,
{
    if n == 0 {
    } else {
        lemma_repeat_chars_len(u, (n - 1) as nat);
        assert(((n - 1) as nat) * u.len() + u.len() == n * u.len()) by (nonlinear_arith)
            requires
                n >= 1,
        ;
    }
}

/// A repetition splits into a shorter repetition followed by the remaining copies.
pub proof fn lemma_repeat_chars_split(u: Seq<char>, r: nat, n: nat)
    requires
        r <= n,
    ensures
        repeat_chars(u, n) == repeat_chars(u, r) + repeat_chars(u, (n - r) as nat),
    decreases n,
{
    if n == r {
        assert(repeat_chars(u, r) + repeat_chars(u, 0) =~= repeat_chars(u, r));
    } else {
        lemma_repeat_chars_split(u, r, (n - 1) as nat);
        assert((repeat_chars(u, r) + repeat_chars(u, ((n - 1) - r) as nat)) + u =~= repeat_chars(
            u,
            r,
        ) + (repeat_chars(u, ((n - 1) - r) as nat) + u));
    }
}

/// UTF-8 encoding distributes over concatenation of character sequences.
pub proof fn lemma_encode_utf8_concat(a: Seq<char>, b: Seq<char>)
    ensures
        encode_utf8(a + b) == encode_utf8(a) + encode_utf8(b),
    decreases a.len(),
{
    if a.len() == 0 {
        assert(a + b =~= b);
        assert(encode_utf8(a) + encode_utf8(b) =~= encode_utf8(b));
    } else {
        assert((a + b).drop_first() =~= a.drop_first() + b);
        lemma_encode_utf8_concat(a.drop_first(), b);
        assert((a + b)[0] == a[0]);
        assert((encode_scalar(a[0] as u32) + encode_utf8(a.drop_first())) + encode_utf8(b)
            =~= encode_scalar(a[0] as u32) + (encode_utf8(a.drop_first()) + encode_utf8(b)));
    }
}

/// The encoding of `n` copies is `n` times as long as the encoding of one copy.
pub proof fn lemma_repeat_chars_bytes_len(u: Seq<char>, n: nat)
    ensures
        encode_utf8(repeat_chars(u, n)).len() == n * encode_utf8(u).len(),
    decreases n,
{
    if n == 0 {
    } else {
        lemma_repeat_chars_bytes_len(u, (n - 1) as nat);
        lemma_encode_utf8_concat(repeat_chars(u, (n - 1) as nat), u);
        assert(((n - 1) as nat) * encode_utf8(u).len() + encode_utf8(u).len() == n * encode_utf8(
            u,
        ).len()) by (nonlinear_arith)
            requires
                n >= 1,
        ;
    }
}

/// Only the empty character sequence encodes to an empty byte sequence.
pub proof fn lemma_encode_utf8_empty(u: Seq<char>)
    ensures
        encode_utf8(u).len() == 0 <==> u.len() == 0,
{
    if u.len() != 0 {
        assert(encode_scalar(u[0] as u32).len() >= 1);
    }
}

/// Character sequences with equal UTF-8 encodings are equal.
pub proof fn lemma_encode_utf8_injective(a: Seq<char>, b: Seq<char>)
    requires
        encode_utf8(a) == encode_utf8(b),
    ensures
        a == b,
{
    vstd::utf8::encode_utf8_decode_utf8(a);
    vstd::utf8::encode_utf8_decode_utf8(b);
}

/// Splicing two valid UTF-8 byte sequences together leaves a character
/// boundary at the seam.
pub proof fn lemma_char_boundary_at_seam(b1: Seq<u8>, b2: Seq<u8>)
    requires
        valid_utf8(b1),
        valid_utf8(b2),
    ensures
        is_char_boundary(b1 + b2, b1.len() as int),
{
    vstd::utf8::valid_utf8_concat(b1, b2);
    if b2.len() == 0 {
        assert(b1 + b2 =~= b1);
        vstd::utf8::is_char_boundary_start_end_of_seq(b1);
    } else {
        vstd::utf8::is_char_boundary_iff_not_is_continuation_byte(b1 + b2, b1.len() as int);
        vstd::utf8::is_char_boundary_iff_not_is_continuation_byte(b2, 0);
        assert(is_char_boundary(b2, 0));
        assert((b1 + b2)[b1.len() as int] == b2[0]);
    }
}

} // verus!
