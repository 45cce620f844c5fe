//! The codepoint encoder: one Unicode scalar value to its 1-4 UTF-8 bytes.
//!
//! This is the only place byte-level character encoding lives; the
//! repeat-fill constructor builds on it.

use vstd::arithmetic::div_mod::{lemma_mod_sub_multiples_vanish, lemma_small_mod};
use vstd::prelude::*;
use vstd::utf8::{char_is_scalar, encode_scalar, encode_utf8};

verus! {

/// Byte length of the UTF-8 encoding of one character.
pub open spec fn char_len(c: char) -> int {
    encode_scalar(c as u32).len() as int
}

/// A character repeated `k` times.
pub open spec fn repeat_chars(c: char, k: int) -> Seq<char> {
    Seq::new(k as nat, |i: int| c)
}

/// Byte length of the UTF-8 encoding of one character, computed from the
/// scalar value alone.
pub fn char_utf8_len(c: char) -> (n: usize)
    ensures
        n == char_len(c),
        1 <= n <= 4,
{
    proof {
        char_is_scalar(c);
    }
    let u = c as u32;
    if u < 0x80 {
        1
    } else if u < 0x800 {
        2
    } else if u < 0x10000 {
        3
    } else {
        4
    }
}

/// The UTF-8 encoding of a character repeated `k` times is the character's
/// byte pattern tiled `k` times: destination byte `i` holds source byte
/// `i % char_len(c)`.
pub proof fn lemma_encode_repeat(c: char, k: int)
    requires
        k >= 0,
    ensures
        encode_utf8(repeat_chars(c, k)).len() == k * char_len(c),
        forall|i: int|
            0 <= i < k * char_len(c) ==> encode_utf8(repeat_chars(c, k))[i] == encode_scalar(
                c as u32,
            )[i % char_len(c)],
    decreases k,
{
    let cl = char_len(c);
    if k == 0 {
        assert(repeat_chars(c, 0) =~= Seq::<char>::empty());
    } else {
        lemma_encode_repeat(c, k - 1);
        let s = repeat_chars(c, k);
        let rest = repeat_chars(c, k - 1);
        assert(s.drop_first() =~= rest);
        let head = encode_scalar(c as u32);
        let tail = encode_utf8(rest);
        assert(encode_utf8(s) == head + tail);
        assert(k * cl == cl + (k - 1) * cl) by (nonlinear_arith);
        assert forall|i: int| 0 <= i < k * cl implies encode_utf8(s)[i] == head[i % cl] by {
            if i < cl {
                lemma_small_mod(i as nat, cl as nat);
            } else {
                assert((head + tail)[i] == tail[i - cl]);
                assert(tail[i - cl] == head[(i - cl) % cl]);
                lemma_mod_sub_multiples_vanish(i, cl);
            }
        }
    }
}

/// The UTF-8 encoding of one character: its 1-4 bytes, in the first
/// `char_len(c)` cells, the remaining cells zero.
pub fn encode_utf8_raw(c: char) -> (r: [u8; 4])
    ensures
        forall|i: int| 0 <= i < char_len(c) ==> r@[i] == encode_scalar(c as u32)[i],
        forall|i: int| char_len(c) <= i < 4 ==> r@[i] == 0,
{
    proof {
        char_is_scalar(c);
    }
    let u = c as u32;
    if u < 0x80 {
        [(u & 0x7F) as u8, 0, 0, 0]
    } else if u < 0x800 {
        [0xC0u8 | ((u >> 6) & 0x1F) as u8, 0x80u8 | (u & 0x3F) as u8, 0, 0]
    } else if u < 0x10000 {
        [
            0xE0u8 | ((u >> 12) & 0x0F) as u8,
            0x80u8 | ((u >> 6) & 0x3F) as u8,
            0x80u8 | (u & 0x3F) as u8,
            0,
        ]
    } else {
        [
            0xF0u8 | ((u >> 18) & 0x7) as u8,
            0x80u8 | ((u >> 12) & 0x3F) as u8,
            0x80u8 | ((u >> 6) & 0x3F) as u8,
            0x80u8 | (u & 0x3F) as u8,
        ]
    }
}

} // verus!
