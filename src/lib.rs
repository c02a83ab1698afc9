//! Fixed-width unsigned integers used as statically sized bit arrays.
//!
//! Bit `i` of a value is its binary digit of weight `2^i`; index 0 is the
//! least significant bit. Indices must lie below the width of the type: the
//! accessors do no bounds checking of their own, and their contracts demand an
//! in-range index instead.
mod array;
mod bits;
mod laws;

pub use array::BinaryArray;
pub use bits::{bit_of, bstring_of, with_bit};
pub use laws::{
    lemma_bstring_digits, lemma_set_bit_idempotent, lemma_set_bit_keeps_others,
    lemma_set_bit_round_trip,
};
