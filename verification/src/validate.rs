//! The UTF-8 validator: a byte-level scan proved equivalent to `valid_utf8`.

use vstd::prelude::*;
use vstd::utf8::{
    codepoint_width_2, codepoint_width_3, codepoint_width_4, is_continuation_byte,
    length_of_first_scalar, not_overlong_encoding, not_surrogate,
    partial_valid_partial_invalid_utf8, partial_valid_utf8, partial_valid_utf8_extend,
    valid_first_scalar, valid_utf8,
};

verus! {

proof fn lemma_width_1_scalar(b0: u8)
    by (bit_vector)
    requires
        b0 < 0x80,
    ensures
        not_surrogate((b0 & 0x7F) as u32),
        not_overlong_encoding((b0 & 0x7F) as u32, 1),
{
}

proof fn lemma_width_2_scalar(b0: u8, b1: u8)
    by (bit_vector)
    requires
        0xC0 <= b0 <= 0xDF,
        is_continuation_byte(b1),
    ensures
        not_surrogate(codepoint_width_2(b0, b1)),
        not_overlong_encoding(codepoint_width_2(b0, b1), 2) <==> 0xC2 <= b0,
{
}

proof fn lemma_width_3_scalar(b0: u8, b1: u8, b2: u8)
    by (bit_vector)
    requires
        0xE0 <= b0 <= 0xEF,
        is_continuation_byte(b1),
        is_continuation_byte(b2),
    ensures
        not_overlong_encoding(codepoint_width_3(b0, b1, b2), 3) <==> (b0 != 0xE0 || b1 >= 0xA0),
        not_surrogate(codepoint_width_3(b0, b1, b2)) <==> (b0 != 0xED || b1 <= 0x9F),
{
}

proof fn lemma_width_4_scalar(b0: u8, b1: u8, b2: u8, b3: u8)
    by (bit_vector)
    requires
        0xF0 <= b0 <= 0xF7,
        is_continuation_byte(b1),
        is_continuation_byte(b2),
        is_continuation_byte(b3),
    ensures
        not_overlong_encoding(codepoint_width_4(b0, b1, b2, b3), 4) <==> ((b0 != 0xF0 || b1
            >= 0x90) && (b0 < 0xF5) && (b0 != 0xF4 || b1 <= 0x8F)),
{
}

/// A well-formed scalar encoding never starts at a position whose byte fails
/// the byte-level checks the scanner makes.
proof fn lemma_invalid_at(s: Seq<u8>)
    requires
        s.len() > 0,
        ({
            let b0 = s[0];
            ||| (0x80 <= b0 < 0xC2)
            ||| (0xC2 <= b0 < 0xE0 && (s.len() < 2 || !is_continuation_byte(s[1])))
            ||| (0xE0 <= b0 < 0xF0 && (s.len() < 3 || !is_continuation_byte(s[1])
                || !is_continuation_byte(s[2]) || (b0 == 0xE0 && s[1] < 0xA0) || (b0 == 0xED
                && s[1] > 0x9F)))
            ||| (0xF0 <= b0 < 0xF5 && (s.len() < 4 || !is_continuation_byte(s[1])
                || !is_continuation_byte(s[2]) || !is_continuation_byte(s[3]) || (b0 == 0xF0
                && s[1] < 0x90) || (b0 == 0xF4 && s[1] > 0x8F)))
            ||| (0xF5 <= b0)
        }),
    ensures
        !valid_first_scalar(s),
        !valid_utf8(s),
{
    let b0 = s[0];
    if valid_first_scalar(s) {
        if 0x80 <= b0 < 0xC2 {
            if s.len() >= 2 && is_continuation_byte(s[1]) && 0xC0 <= b0 {
                lemma_width_2_scalar(b0, s[1]);
            }
        } else if 0xC2 <= b0 < 0xE0 {
            // the pattern disjunct for width 2 fails, and no other width matches b0
        } else if 0xE0 <= b0 < 0xF0 {
            if s.len() >= 3 && is_continuation_byte(s[1]) && is_continuation_byte(s[2]) {
                lemma_width_3_scalar(b0, s[1], s[2]);
            }
        } else if 0xF0 <= b0 < 0xF5 {
            if s.len() >= 4 && is_continuation_byte(s[1]) && is_continuation_byte(s[2])
                && is_continuation_byte(s[3]) {
                lemma_width_4_scalar(b0, s[1], s[2], s[3]);
            }
        } else {
            if b0 <= 0xF7 && s.len() >= 4 && is_continuation_byte(s[1]) && is_continuation_byte(
                s[2],
            ) && is_continuation_byte(s[3]) {
                lemma_width_4_scalar(b0, s[1], s[2], s[3]);
            }
        }
    }
}

/// Scan the bytes for the first position at which no well-formed scalar
/// encoding starts. `Ok` means the whole input is valid UTF-8; `Err(i)`
/// reports the first offending position, every byte before it forming a
/// valid encoding.
pub(crate) fn validate_utf8(bytes: &[u8]) -> (r: Result<(), usize>)
    ensures
        match r {
            Ok(()) => valid_utf8(bytes@),
            Err(i) => {
                &&& !valid_utf8(bytes@)
                &&& i < bytes@.len()
                &&& partial_valid_utf8(bytes@, i as int)
                &&& !valid_first_scalar(bytes@.subrange(i as int, bytes@.len() as int))
            },
        },
{
    let n = bytes.len();
    let mut i: usize = 0;
    while i < n
        invariant
            i <= n,
            n == bytes@.len(),
            partial_valid_utf8(bytes@, i as int),
        decreases n - i,
    {
        let ghost suffix = bytes@.subrange(i as int, n as int);
        let b0 = bytes[i];
        assert(suffix[0] == b0);
        if b0 < 0x80 {
            proof {
                lemma_width_1_scalar(b0);
                assert(valid_first_scalar(suffix));
                assert(length_of_first_scalar(suffix) == 1);
                partial_valid_utf8_extend(bytes@, i as int);
            }
            i = i + 1;
        } else if b0 < 0xC2 {
            proof {
                lemma_invalid_at(suffix);
                partial_valid_partial_invalid_utf8(bytes@, i as int);
            }
            return Err(i);
        } else if b0 < 0xE0 {
            if n - i >= 2 {
                let b1 = bytes[i + 1];
                assert(suffix[1] == b1);
                if 0x80 <= b1 && b1 < 0xC0 {
                    proof {
                        lemma_width_2_scalar(b0, b1);
                        assert(valid_first_scalar(suffix));
                        assert(length_of_first_scalar(suffix) == 2);
                        partial_valid_utf8_extend(bytes@, i as int);
                    }
                    i = i + 2;
                    continue ;
                }
            }
            proof {
                lemma_invalid_at(suffix);
                partial_valid_partial_invalid_utf8(bytes@, i as int);
            }
            return Err(i);
        } else if b0 < 0xF0 {
            if n - i >= 3 {
                let b1 = bytes[i + 1];
                let b2 = bytes[i + 2];
                assert(suffix[1] == b1 && suffix[2] == b2);
                if 0x80 <= b1 && b1 < 0xC0 && 0x80 <= b2 && b2 < 0xC0 && !(b0 == 0xE0 && b1
                    < 0xA0) && !(b0 == 0xED && b1 > 0x9F) {
                    proof {
                        lemma_width_3_scalar(b0, b1, b2);
                        assert(valid_first_scalar(suffix));
                        assert(length_of_first_scalar(suffix) == 3);
                        partial_valid_utf8_extend(bytes@, i as int);
                    }
                    i = i + 3;
                    continue ;
                }
            }
            proof {
                lemma_invalid_at(suffix);
                partial_valid_partial_invalid_utf8(bytes@, i as int);
            }
            return Err(i);
        } else if b0 < 0xF5 {
            if n - i >= 4 {
                let b1 = bytes[i + 1];
                let b2 = bytes[i + 2];
                let b3 = bytes[i + 3];
                assert(suffix[1] == b1 && suffix[2] == b2 && suffix[3] == b3);
                if 0x80 <= b1 && b1 < 0xC0 && 0x80 <= b2 && b2 < 0xC0 && 0x80 <= b3 && b3 < 0xC0
                    && !(b0 == 0xF0 && b1 < 0x90) && !(b0 == 0xF4 && b1 > 0x8F) {
                    proof {
                        lemma_width_4_scalar(b0, b1, b2, b3);
                        assert(valid_first_scalar(suffix));
                        assert(length_of_first_scalar(suffix) == 4);
                        partial_valid_utf8_extend(bytes@, i as int);
                    }
                    i = i + 4;
                    continue ;
                }
            }
            proof {
                lemma_invalid_at(suffix);
                partial_valid_partial_invalid_utf8(bytes@, i as int);
            }
            return Err(i);
        } else {
            proof {
                lemma_invalid_at(suffix);
                partial_valid_partial_invalid_utf8(bytes@, i as int);
            }
            return Err(i);
        }
    }
    proof {
        assert(bytes@.subrange(0, n as int) =~= bytes@);
    }
    Ok(())
}

} // verus!
