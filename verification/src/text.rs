//! The fixed-capacity text value: `N` bytes that are always valid UTF-8.

use crate::encode::{char_len, char_utf8_len, encode_utf8_raw, lemma_encode_repeat, repeat_chars};
use crate::error::AStrError;
use crate::validate::validate_utf8;
use vstd::arithmetic::div_mod::lemma_fundamental_div_mod;
use vstd::pervasive::unreached;
use vstd::prelude::*;
use vstd::string::StringSliceAdditionalSpecFns;
use vstd::utf8::{
    decode_utf8, encode_scalar, encode_utf8, encode_utf8_decode_utf8, encode_utf8_valid_utf8,
    is_char_boundary, is_char_boundary_iff_not_is_continuation_byte,
    is_char_boundary_start_end_of_seq, partial_valid_utf8, partial_valid_utf8_extend_ascii_block,
    valid_first_scalar, valid_utf8, valid_utf8_concat, valid_utf8_split,
};

verus! {

/// Text with a compile-time byte length.
///
/// A wrapper around an array of `N` bytes that, as a type invariant, always
/// holds a valid UTF-8 encoding. The view is the stored byte sequence; the
/// text it denotes is `decode_utf8` of that view.
#[derive(Clone, Copy, Debug, Eq, PartialOrd, Ord, Hash)]
pub struct AStr<const N: usize> {
    bytes: [u8; N],
}

impl<const N: usize> View for AStr<N> {
    type V = Seq<u8>;

    closed spec fn view(&self) -> Seq<u8> {
        self.bytes@
    }
}

impl<const N: usize> AStr<N> {
    /// The invariant: the stored bytes are always a valid UTF-8 encoding.
    #[verifier::type_invariant]
    spec fn inv(self) -> bool {
        valid_utf8(self.bytes@)
    }

    /// Create a new AStr from an array of bytes that the caller has proved
    /// to be valid UTF-8. This is the single foundation every other
    /// constructor funnels through.
    pub fn from_utf8_array_unchecked(arr: [u8; N]) -> (r: Self)
        requires
            valid_utf8(arr@),
        ensures
            r@ == arr@,
    {
        AStr { bytes: arr }
    }

    /// Create a new AStr from an exact-size array of bytes, validating that
    /// they are well-formed UTF-8.
    pub fn try_from_utf8_array_ref(arr: &[u8; N]) -> (r: Result<Self, AStrError>)
        ensures
            r is Ok <==> valid_utf8(arr@),
            r matches Ok(t) ==> t@ == arr@,
            r matches Err(e) ==> (e matches AStrError::Utf8 { valid_up_to }
                && partial_valid_utf8(arr@, valid_up_to as int) && !valid_first_scalar(
                arr@.subrange(valid_up_to as int, arr@.len() as int),
            )),
    {
        match validate_utf8(arr.as_slice()) {
            Ok(()) => Ok(AStr { bytes: *arr }),
            Err(i) => Err(AStrError::Utf8 { valid_up_to: i }),
        }
    }

    /// Create a new AStr from a slice of bytes, checking the length and
    /// validating that the bytes are well-formed UTF-8.
    pub fn try_from_utf8(slice: &[u8]) -> (r: Result<Self, AStrError>)
        ensures
            r is Ok <==> (slice@.len() == N && valid_utf8(slice@)),
            r matches Ok(t) ==> t@ == slice@,
            slice@.len() != N ==> r == Err::<Self, _>(
                AStrError::LengthMismatch { expected: N, actual: slice@.len() as usize },
            ),
            slice@.len() == N ==> (r matches Err(e) ==> (e matches AStrError::Utf8 { valid_up_to }
                && partial_valid_utf8(slice@, valid_up_to as int) && !valid_first_scalar(
                slice@.subrange(valid_up_to as int, slice@.len() as int),
            ))),
    {
        if slice.len() != N {
            return Err(AStrError::LengthMismatch { expected: N, actual: slice.len() });
        }
        match validate_utf8(slice) {
            Ok(()) => Ok(AStr { bytes: copy_to_array(slice) }),
            Err(i) => Err(AStrError::Utf8 { valid_up_to: i }),
        }
    }

    /// Create a new AStr from a slice of bytes that the caller has proved to
    /// be valid UTF-8 of the right length, without validation.
    pub fn from_utf8_unchecked(slice: &[u8]) -> (r: Self)
        requires
            slice@.len() == N,
            valid_utf8(slice@),
        ensures
            r@ == slice@,
    {
        AStr { bytes: copy_to_array(slice) }
    }

    /// Create a new AStr from a slice of bytes known to be valid UTF-8 of
    /// the right length.
    pub fn from_utf8(slice: &[u8]) -> (r: Self)
        requires
            slice@.len() == N,
            valid_utf8(slice@),
        ensures
            r@ == slice@,
    {
        match Self::try_from_utf8(slice) {
            Ok(t) => t,
            Err(_) => unreached(),
        }
    }

    /// Create a new AStr from borrowed text, checking that its encoding is
    /// exactly `N` bytes long. Validity comes for free: text is well-formed
    /// UTF-8 by construction.
    pub fn try_from_str_ref(s: &str) -> (r: Result<Self, AStrError>)
        ensures
            r is Ok <==> s.spec_bytes().len() == N,
            r matches Ok(t) ==> t@ == s.spec_bytes(),
            r matches Err(e) ==> e == (AStrError::LengthMismatch {
                expected: N,
                actual: s.spec_bytes().len() as usize,
            }),
    {
        let b = s.as_bytes();
        if b.len() != N {
            return Err(AStrError::LengthMismatch { expected: N, actual: b.len() });
        }
        proof {
            encode_utf8_valid_utf8(s@);
        }
        Ok(AStr { bytes: copy_to_array(b) })
    }

    /// Create a new AStr from borrowed text whose encoding is known to be
    /// exactly `N` bytes long.
    pub fn from_str_ref(s: &str) -> (r: Self)
        requires
            s.spec_bytes().len() == N,
        ensures
            r@ == s.spec_bytes(),
    {
        match Self::try_from_str_ref(s) {
            Ok(t) => t,
            Err(_) => unreached(),
        }
    }

    /// The byte representation.
    pub fn as_bytes(&self) -> (r: &[u8; N])
        ensures
            r@ == self@,
            valid_utf8(self@),
    {
        proof {
            use_type_invariant(self);
        }
        &self.bytes
    }

    /// The byte representation, as a slice.
    pub fn as_slice(&self) -> (r: &[u8])
        ensures
            r@ == self@,
            valid_utf8(self@),
    {
        proof {
            use_type_invariant(self);
        }
        self.bytes.as_slice()
    }

    /// The borrowed text representation: the same bytes, viewed as text.
    pub fn as_str(&self) -> (r: &str)
        ensures
            r.spec_bytes() == self@,
            r@ == decode_utf8(self@),
            valid_utf8(self@),
    {
        proof {
            use_type_invariant(self);
        }
        let r = bytes_as_str(self.bytes.as_slice());
        proof {
            encode_utf8_decode_utf8(r@);
        }
        r
    }

    /// Fill the text with one byte repeated `N` times. The byte must be an
    /// ASCII byte, the one-byte form of UTF-8.
    pub fn repeat_byte(byte: u8) -> (r: Self)
        requires
            byte < 0x80,
        ensures
            r@ == Seq::new(N as nat, |i: int| byte),
    {
        let buf = [byte; N];
        proof {
            assert(buf@.subrange(0, 0) =~= Seq::<u8>::empty());
            partial_valid_utf8_extend_ascii_block(buf@, 0, N as int);
            assert(buf@.subrange(0, N as int) =~= buf@);
            assert(buf@ =~= Seq::new(N as nat, |i: int| byte));
        }
        AStr { bytes: buf }
    }

    /// Fill the text by tiling one character's UTF-8 byte pattern across the
    /// whole buffer. The capacity must be an exact multiple of the
    /// character's encoded length.
    pub fn repeat(c: char) -> (r: Self)
        requires
            N as int % char_len(c) == 0,
        ensures
            r@ == encode_utf8(repeat_chars(c, N as int / char_len(c))),
            forall|i: int| 0 <= i < N ==> r@[i] == encode_scalar(c as u32)[i % char_len(c)],
    {
        let cl = char_utf8_len(c);
        let char_bytes = encode_utf8_raw(c);
        let mut buf = [0u8; N];
        let mut i: usize = 0;
        while i < N
            invariant
                i <= N,
                cl == char_len(c),
                1 <= cl <= 4,
                forall|j: int| 0 <= j < char_len(c) ==> char_bytes@[j] == encode_scalar(c as u32)[j],
                forall|j: int| 0 <= j < i ==> buf@[j] == encode_scalar(c as u32)[j % char_len(c)],
            decreases N - i,
        {
            buf[i] = char_bytes[i % cl];
            i = i + 1;
        }
        proof {
            let k = N as int / char_len(c);
            lemma_fundamental_div_mod(N as int, char_len(c));
            lemma_encode_repeat(c, k);
            assert(buf@ =~= encode_utf8(repeat_chars(c, k)));
            encode_utf8_valid_utf8(repeat_chars(c, k));
        }
        AStr { bytes: buf }
    }

    /// Concatenate two texts. The result capacity must be exactly the sum
    /// of the operand capacities; two valid UTF-8 sequences laid end to end
    /// are again valid UTF-8, so no re-validation happens.
    pub fn concat<const B: usize, const R: usize>(&self, other: &AStr<B>) -> (r: AStr<R>)
        requires
            N + B == R,
        ensures
            r@ == self@ + other@,
    {
        proof {
            use_type_invariant(self);
            use_type_invariant(other);
        }
        let mut buf = [0u8; R];
        let mut i: usize = 0;
        while i < N
            invariant
                i <= N,
                N + B == R,
                forall|j: int| 0 <= j < i ==> buf@[j] == self@[j],
            decreases N - i,
        {
            buf[i] = self.bytes[i];
            i = i + 1;
        }
        let mut j: usize = 0;
        while j < B
            invariant
                j <= B,
                N + B == R,
                forall|t: int| 0 <= t < N ==> buf@[t] == self@[t],
                forall|t: int| 0 <= t < j ==> buf@[N + t] == other@[t],
            decreases B - j,
        {
            buf[N + j] = other.bytes[j];
            j = j + 1;
        }
        proof {
            assert(buf@ =~= self@ + other@);
            valid_utf8_concat(self@, other@);
        }
        AStr { bytes: buf }
    }

    /// The byte length, which is always exactly `N`.
    pub fn len(&self) -> (r: usize)
        ensures
            r == N,
            r == self@.len(),
    {
        N
    }

    /// Borrow the text in the byte range `[start, end)`. As with indexing
    /// dynamic text by a byte range, both ends must lie on character
    /// boundaries.
    pub fn index(&self, start: usize, end: usize) -> (r: &str)
        requires
            start <= end <= N,
            is_char_boundary(self@, start as int),
            is_char_boundary(self@, end as int),
        ensures
            r.spec_bytes() == self@.subrange(start as int, end as int),
            r@ == decode_utf8(self@.subrange(start as int, end as int)),
            valid_utf8(self@),
    {
        let s = self.as_str();
        let (_, suffix) = s.split_at(start);
        proof {
            valid_utf8_split(self@, start as int);
            let tail = self@.subrange(start as int, N as int);
            if end == N {
                is_char_boundary_start_end_of_seq(tail);
            } else if end == start {
                is_char_boundary_start_end_of_seq(tail);
            } else {
                is_char_boundary_iff_not_is_continuation_byte(self@, end as int);
                assert(tail[end - start] == self@[end as int]);
                is_char_boundary_iff_not_is_continuation_byte(tail, end - start);
            }
        }
        let (mid, _) = suffix.split_at(end - start);
        proof {
            assert(mid.spec_bytes() =~= self@.subrange(start as int, end as int));
            encode_utf8_decode_utf8(mid@);
        }
        mid
    }

    /// Borrow the text in the byte range `[start, end)` if the range is
    /// well-formed, and report `None` exactly where range indexing would be
    /// refused: ends out of order or past the capacity, or an end that
    /// splits a multi-byte character.
    pub fn get(&self, start: usize, end: usize) -> (r: Option<&str>)
        ensures
            r is Some <==> (start <= end <= N && is_char_boundary(self@, start as int)
                && is_char_boundary(self@, end as int)),
            r matches Some(t) ==> t.spec_bytes() == self@.subrange(start as int, end as int),
            r matches Some(t) ==> t@ == decode_utf8(self@.subrange(start as int, end as int)),
            valid_utf8(self@),
    {
        proof {
            use_type_invariant(self);
        }
        if start > end || end > self.len() {
            return None;
        }
        let s = self.as_str();
        if !s.is_char_boundary(start) {
            return None;
        }
        if !s.is_char_boundary(end) {
            return None;
        }
        Some(self.index(start, end))
    }

    /// An owned dynamic text holding the same characters.
    pub fn to_string(&self) -> (r: String)
        ensures
            r@ == decode_utf8(self@),
    {
        self.as_str().to_owned()
    }
}

impl<const N: usize> PartialEq for AStr<N> {
    /// Two texts are equal exactly when their bytes are equal.
    fn eq(&self, other: &Self) -> (r: bool)
        ensures
            r == (self@ == other@),
    {
        let mut i: usize = 0;
        while i < N
            invariant
                i <= N,
                forall|j: int| 0 <= j < i ==> self@[j] == other@[j],
            decreases N - i,
        {
            if self.bytes[i] != other.bytes[i] {
                return false;
            }
            i = i + 1;
        }
        proof {
            assert(self@ =~= other@);
        }
        true
    }
}

impl<const N: usize> vstd::std_specs::cmp::PartialEqSpecImpl for AStr<N> {
    open spec fn obeys_eq_spec() -> bool {
        true
    }

    open spec fn eq_spec(&self, other: &Self) -> bool {
        self@ == other@
    }
}

impl Default for AStr<0> {
    /// The empty text: the one value of the zero-capacity type.
    fn default() -> (r: Self)
        ensures
            r@ == Seq::<u8>::empty(),
    {
        let buf = [0u8; 0];
        proof {
            assert(buf@ =~= Seq::<u8>::empty());
        }
        AStr { bytes: buf }
    }
}

/// Length invariant: the byte view of any fixed-capacity text has exactly
/// the capacity's length.
pub proof fn lemma_length_invariant<const N: usize>(t: AStr<N>)
    ensures
        t@.len() == N,
{
}

/// Copy an exactly-`N`-byte slice into an owned array.
fn copy_to_array<const N: usize>(slice: &[u8]) -> (r: [u8; N])
    requires
        slice@.len() == N,
    ensures
        r@ == slice@,
{
    let mut buf = [0u8; N];
    let mut i: usize = 0;
    while i < N
        invariant
            i <= N,
            slice@.len() == N,
            forall|j: int| 0 <= j < i ==> buf@[j] == slice@[j],
        decreases N - i,
    {
        buf[i] = slice[i];
        i = i + 1;
    }
    proof {
        assert(buf@ =~= slice@);
    }
    buf
}

/// Relies on `core::str::from_utf8`: on input that is a valid UTF-8
/// encoding it succeeds and returns the borrowed text whose underlying
/// bytes are exactly the input.
#[verifier::external_body]
fn bytes_as_str(bytes: &[u8]) -> (r: &str)
    requires
        valid_utf8(bytes@),
    ensures
        r.spec_bytes() == bytes@,
{
    core::str::from_utf8(bytes).unwrap()
}

} // verus!
