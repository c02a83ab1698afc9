//! Laws that relate reading, setting and formatting bits.
use crate::array::BinaryArray;
use crate::bits::{bit_of, bstring_of, lemma_with_bit_digits, with_bit};
use vstd::prelude::*;

verus! {

/// Setting bit `i` and then clearing it gives the value with bit `i` cleared,
/// and after setting bit `i` to `b`, reading bit `i` gives `b`.
pub proof fn lemma_set_bit_round_trip<T: BinaryArray>(v: T, i: nat, b: bool)
    requires
        i < T::width(),
    ensures
        with_bit(with_bit(v.as_nat(), i, true), i, false) == with_bit(v.as_nat(), i, false),
        bit_of(with_bit(v.as_nat(), i, b), i) == b,
{
    lemma_with_bit_digits(v.as_nat(), i, true, i);
    lemma_with_bit_digits(v.as_nat(), i, b, i);
}

/// Setting bit `i` leaves every other bit as it was.
pub proof fn lemma_set_bit_keeps_others<T: BinaryArray>(v: T, i: nat, b: bool)
    requires
        i < T::width(),
    ensures
        forall|j: nat|
            j < T::width() && j != i ==> #[trigger] bit_of(with_bit(v.as_nat(), i, b), j)
                == bit_of(v.as_nat(), j),
{
    assert forall|j: nat| j < T::width() && j != i implies #[trigger] bit_of(
        with_bit(v.as_nat(), i, b),
        j,
    ) == bit_of(v.as_nat(), j) by {
        lemma_with_bit_digits(v.as_nat(), i, b, j);
    }
}

/// The binary string has one character per bit, each '0' or '1', and the
/// character `width - 1 - i` places from the left is '1' exactly when bit `i` is set.
pub proof fn lemma_bstring_digits<T: BinaryArray>(v: T)
    ensures
        bstring_of(v.as_nat(), T::width()).len() == T::width(),
        forall|k: int|
            0 <= k < T::width() ==> #[trigger] bstring_of(v.as_nat(), T::width())[k] == '0'
                || bstring_of(v.as_nat(), T::width())[k] == '1',
        forall|i: nat|
            i < T::width() ==> (#[trigger] bstring_of(v.as_nat(), T::width())[T::width() - 1 - i]
                == '1') == bit_of(v.as_nat(), i),
{
}

/// Setting a bit to the value it already has leaves the value unchanged.
pub proof fn lemma_set_bit_idempotent<T: BinaryArray>(v: T, i: nat)
    requires
        i < T::width(),
    ensures
        with_bit(v.as_nat(), i, bit_of(v.as_nat(), i)) == v.as_nat(),
{
}

} // verus!
