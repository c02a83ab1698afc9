//! The arithmetic model of a bit array: a natural number and its binary digits.
use vstd::arithmetic::div_mod::lemma_div_denominator;
use vstd::arithmetic::power2::{lemma2_to64, lemma_pow2_pos, lemma_pow2_unfold, pow2};
use vstd::prelude::*;

verus! {

/// Whether the binary digit of weight `2^i` of `v` is one.
pub open spec fn bit_of(v: nat, i: nat) -> bool {
    (v / pow2(i)) % 2 == 1
}

/// `v` with its binary digit of weight `2^i` forced to `b`, all other digits kept.
pub open spec fn with_bit(v: nat, i: nat, b: bool) -> nat {
    (v - (if bit_of(v, i) { pow2(i) } else { 0 }) + (if b { pow2(i) } else { 0 })) as nat
}

/// The `w` lowest binary digits of `v` as '0' and '1', most significant first.
pub open spec fn bstring_of(v: nat, w: nat) -> Seq<char> {
    Seq::new(w, |k: int| if bit_of(v, (w - 1 - k) as nat) { '1' } else { '0' })
}

/// Digit `i + 1` of `v` is digit `i` of `v / 2`.
pub proof fn lemma_bit_of_half(v: nat, i: nat)
    ensures
        bit_of(v, 0) == (v % 2 == 1),
        bit_of(v, i + 1) == bit_of(v / 2, i),
{
    lemma_pow2_unfold(i + 1);
    lemma_pow2_pos(i);
    lemma2_to64();
    lemma_div_denominator(v as int, 2, pow2(i) as int);
}

/// Setting digit `i + 1` works on `v / 2` and keeps the lowest digit.
proof fn lemma_with_bit_step(v: nat, i: nat, b: bool)
    ensures
        with_bit(v, 0, b) == 2 * (v / 2) + (if b { 1nat } else { 0nat }),
        with_bit(v, i + 1, b) == 2 * with_bit(v / 2, i, b) + v % 2,
{
    lemma_bit_of_half(v, i);
    lemma_pow2_unfold(i + 1);
    lemma_pow2_pos(i);
    lemma2_to64();
    let q = v / 2;
    assert(v == 2 * q + v % 2);
    assert(bit_of(q, i) ==> q >= pow2(i)) by {
        if q < pow2(i) {
            vstd::arithmetic::div_mod::lemma_basic_div(q as int, pow2(i) as int);
        }
    }
}

/// Forcing digit `i` changes that digit and no other.
pub proof fn lemma_with_bit_digits(v: nat, i: nat, b: bool, j: nat)
    ensures
        bit_of(with_bit(v, i, b), j) == if j == i { b } else { bit_of(v, j) },
    decreases i,
{
    lemma_with_bit_step(v, (i - 1) as nat, b);
    let r = with_bit(v, i, b);
    lemma_bit_of_half(r, (j - 1) as nat);
    lemma_bit_of_half(v, (j - 1) as nat);
    if i == 0 {
        let q = v / 2;
        assert(r == 2 * q + (if b { 1nat } else { 0nat }));
        assert(r / 2 == q && r % 2 == (if b { 1nat } else { 0nat }));
    } else {
        let q = v / 2;
        let s = with_bit(q, (i - 1) as nat, b);
        assert(r == 2 * s + v % 2);
        assert(r / 2 == s && r % 2 == v % 2);
        if j > 0 {
            lemma_with_bit_digits(q, (i - 1) as nat, b, (j - 1) as nat);
        }
    }
}

/// Forcing a digit below `w` keeps a value below `2^w`.
pub proof fn lemma_with_bit_bound(v: nat, i: nat, b: bool, w: nat)
    requires
        v < pow2(w),
        i < w,
    ensures
        with_bit(v, i, b) < pow2(w),
    decreases i,
{
    lemma_with_bit_step(v, (i - 1) as nat, b);
    lemma_pow2_unfold(w);
    let q = v / 2;
    assert(q < pow2((w - 1) as nat));
    if i == 0 {
    } else {
        lemma_with_bit_bound(q, (i - 1) as nat, b, (w - 1) as nat);
    }
}

/// Two values below `2^w` whose `w` lowest digits agree are equal.
pub proof fn lemma_digits_determine(a: nat, b: nat, w: nat)
    requires
        a < pow2(w),
        b < pow2(w),
        forall|j: nat| j < w ==> bit_of(a, j) == bit_of(b, j),
    ensures
        a == b,
    decreases w,
{
    if w == 0 {
        lemma2_to64();
    } else {
        lemma_pow2_unfold(w);
        lemma_bit_of_half(a, 0);
        lemma_bit_of_half(b, 0);
        assert(bit_of(a, 0) == bit_of(b, 0));
        assert forall|j: nat| j < (w - 1) as nat implies #[trigger] bit_of(a / 2, j) == bit_of(b / 2, j) by {
            lemma_bit_of_half(a, j);
            lemma_bit_of_half(b, j);
            assert(bit_of(a, j + 1) == bit_of(b, j + 1));
        }
        lemma_digits_determine(a / 2, b / 2, (w - 1) as nat);
    }
}

/// A value below `2^w` whose digits are those of `v` but digit `i`, which is `b`,
/// is `with_bit(v, i, b)`.
pub proof fn lemma_with_bit_unique(v: nat, r: nat, i: nat, b: bool, w: nat)
    requires
        v < pow2(w),
        r < pow2(w),
        i < w,
        forall|j: nat| j < w ==> #[trigger] bit_of(r, j) == if j == i { b } else { bit_of(v, j) },
    ensures
        r == with_bit(v, i, b),
{
    lemma_with_bit_bound(v, i, b, w);
    assert forall|j: nat| j < w implies bit_of(r, j) == #[trigger] bit_of(with_bit(v, i, b), j) by {
        lemma_with_bit_digits(v, i, b, j);
    }
    lemma_digits_determine(r, with_bit(v, i, b), w);
}

} // verus!
