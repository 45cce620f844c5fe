//! Fixed-capacity UTF-8 text: a byte buffer of statically known size that is
//! guaranteed, as a type invariant, to always hold well-formed UTF-8 text of
//! exactly that byte length.

mod builder;
mod encode;
mod error;
mod input;
mod laws;
mod text;
mod validate;

pub use builder::FmtBuilder;
pub use encode::{char_utf8_len, encode_utf8_raw};
pub use error::AStrError;
pub use input::{valid_input, ValidInput};
pub use laws::{lemma_concat_valid, lemma_eq_text, lemma_round_trip};
pub use text::{lemma_length_invariant, AStr};
