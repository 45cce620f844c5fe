//! The bounded builder: streaming text writes into an exact-capacity buffer.

use crate::error::AStrError;
use crate::text::AStr;
use vstd::prelude::*;
use vstd::string::StringSliceAdditionalSpecFns;
use vstd::utf8::{encode_utf8, encode_utf8_valid_utf8, valid_utf8, valid_utf8_concat};

verus! {

/// Builds an [`AStr`] from a stream of text chunks.
///
/// The buffer's UTF-8 invariant is suspended while building: only the prefix
/// written so far is kept valid. A write that would overrun the capacity
/// puts the builder into a failed state, and finalizing demands an exact
/// fit: every one of the `N` bytes written, none left over.
pub struct FmtBuilder<const N: usize> {
    len: usize,
    buf: [u8; N],
    failed: bool,
}

impl<const N: usize> FmtBuilder<N> {
    /// How many bytes have been written so far.
    pub closed spec fn cursor(&self) -> int {
        self.len as int
    }

    /// The bytes written so far.
    pub closed spec fn written(&self) -> Seq<u8> {
        self.buf@.subrange(0, self.len as int)
    }

    /// Whether a write has overrun the capacity; no later write or
    /// finalization can succeed.
    pub closed spec fn has_failed(&self) -> bool {
        self.failed
    }

    #[verifier::type_invariant]
    spec fn inv(self) -> bool {
        self.len <= N && valid_utf8(self.buf@.subrange(0, self.len as int))
    }

    /// An empty builder for capacity `N`.
    pub fn new() -> (r: Self)
        ensures
            r.cursor() == 0,
            r.written() == Seq::<u8>::empty(),
            !r.has_failed(),
    {
        let r = FmtBuilder { len: 0, buf: [0u8; N], failed: false };
        proof {
            assert(r.buf@.subrange(0, 0) =~= Seq::<u8>::empty());
        }
        r
    }

    /// Append one chunk of text. Succeeds exactly when the builder has not
    /// failed and the chunk's bytes still fit in the remaining capacity;
    /// otherwise the written prefix stays as it was and the builder is left
    /// in the failed state.
    pub fn write_str(&mut self, s: &str) -> (r: Result<(), AStrError>)
        ensures
            r is Ok <==> (!old(self).has_failed() && old(self).cursor() + s.spec_bytes().len()
                <= N),
            final(self).has_failed() <==> !(r is Ok),
            r is Ok ==> final(self).written() == old(self).written() + s.spec_bytes(),
            r is Ok ==> final(self).cursor() == old(self).cursor() + s.spec_bytes().len(),
            !(r is Ok) ==> final(self).written() == old(self).written(),
            !(r is Ok) ==> final(self).cursor() == old(self).cursor(),
            r matches Err(e) ==> (e matches AStrError::CapacityExceeded { capacity, attempted }
                && capacity == N && attempted == (if old(self).cursor() + s.spec_bytes().len()
                <= usize::MAX {
                old(self).cursor() + s.spec_bytes().len()
            } else {
                usize::MAX as int
            })),
    {
        proof {
            use_type_invariant(&*self);
        }
        let bytes = s.as_bytes();
        let (attempted, overflowed) = match self.len.checked_add(bytes.len()) {
            Some(a) => (a, false),
            None => (usize::MAX, true),
        };
        if self.failed || overflowed || attempted > N {
            self.failed = true;
            return Err(AStrError::CapacityExceeded { capacity: N, attempted });
        }
        let ghost old_self = *self;
        let offset = self.len;
        let mut i: usize = 0;
        while i < bytes.len()
            invariant
                i <= bytes@.len(),
                offset + bytes@.len() <= N,
                self.buf@.len() == N,
                self.len == offset,
                self.failed == false,
                self.buf@.subrange(0, offset as int) == old_self.written(),
                forall|j: int| 0 <= j < i ==> self.buf@[offset + j] == bytes@[j],
                valid_utf8(old_self.written()),
            decreases bytes@.len() - i,
        {
            proof {
                assert(self.buf@.update(offset + i, bytes@[i as int]).subrange(0, offset as int)
                    =~= self.buf@.subrange(0, offset as int));
            }
            self.buf[offset + i] = bytes[i];
            i = i + 1;
        }
        proof {
            assert(self.buf@.subrange(0, offset + bytes@.len()) =~= old_self.written()
                + s.spec_bytes());
            encode_utf8_valid_utf8(s@);
            valid_utf8_concat(old_self.written(), s.spec_bytes());
        }
        self.len = offset + bytes.len();
        Ok(())
    }

    /// Finish building. Succeeds exactly when every one of the `N` bytes
    /// has been written: a shorter or overrun stream is refused, never
    /// padded or truncated.
    pub fn finalize(self) -> (r: Result<AStr<N>, AStrError>)
        ensures
            r is Ok <==> (!self.has_failed() && self.cursor() == N),
            r matches Ok(t) ==> t@ == self.written(),
            r matches Err(e) ==> (e matches AStrError::LengthMismatch { expected, actual }
                && expected == N && actual == self.cursor()),
    {
        proof {
            use_type_invariant(&self);
        }
        if !self.failed && self.len == N {
            proof {
                assert(self.buf@.subrange(0, N as int) =~= self.buf@);
            }
            Ok(AStr::from_utf8_array_unchecked(self.buf))
        } else {
            Err(AStrError::LengthMismatch { expected: N, actual: self.len })
        }
    }
}

impl<const N: usize> AStr<N> {
    /// Build the text from anything that can display itself, by streaming
    /// the formatted output through a bounded builder. Succeeds exactly
    /// when the formatted text is `N` bytes long; a shorter or longer
    /// rendering is reported as a length mismatch, never padded or
    /// truncated.
    pub fn try_from_fmt<T: core::fmt::Display>(display: T) -> (r: Result<Self, AStrError>)
        ensures
            r matches Ok(t) ==> (exists|s: String|
                {
                    &&& #[trigger] vstd::string::to_string_from_display_ensures::<T>(&display, s)
                    &&& encode_utf8(s@).len() == N
                    &&& t@ == encode_utf8(s@)
                }),
            r matches Err(e) ==> (e matches AStrError::LengthMismatch { expected, actual }
                && expected == N && actual != N && (exists|s: String|
                {
                    &&& #[trigger] vstd::string::to_string_from_display_ensures::<T>(&display, s)
                    &&& encode_utf8(s@).len() == actual
                })),
    {
        let text = display.to_string();
        let actual = text.as_str().as_bytes().len();
        proof {
            assert(vstd::string::to_string_from_display_ensures::<T>(&display, text));
        }
        let mut builder = FmtBuilder::<N>::new();
        match builder.write_str(text.as_str()) {
            Ok(()) => {
                match builder.finalize() {
                    Ok(t) => {
                        proof {
                            assert(t@ == encode_utf8(text@));
                        }
                        Ok(t)
                    },
                    Err(_) => Err(AStrError::LengthMismatch { expected: N, actual }),
                }
            },
            Err(_) => Err(AStrError::LengthMismatch { expected: N, actual }),
        }
    }
}

} // verus!
