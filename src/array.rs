//! The bit-array capability and its implementations for the unsigned integer types.
use crate::bits::{bit_of, bstring_of, lemma_with_bit_unique, with_bit};
use vstd::layout::unsigned_int_max_values;
use vstd::bits::{
    lemma_u128_shr_is_div, lemma_u16_shr_is_div, lemma_u32_shr_is_div, lemma_u64_shr_is_div,
    lemma_u8_shr_is_div, lemma_usize_shr_is_div,
};
use vstd::prelude::*;

verus! {

/// An unsigned integer read as an array of `width()` bits, bit 0 being the
/// least significant.
pub trait BinaryArray: Sized {
    /// The number of bits.
    spec fn width() -> nat;

    /// The value as a natural number.
    spec fn as_nat(&self) -> nat;

    /// Retrieves the bit value from index location
    fn get_bit(&self, index: usize) -> (r: bool)
        requires
            index < Self::width(),
        ensures
            r == bit_of(self.as_nat(), index as nat),
    ;

    /// Returns the value with the bit at index location set to `value`;
    /// the receiver itself is left as it was.
    fn set_bit(&mut self, index: usize, value: bool) -> (r: Self)
        requires
            index < Self::width(),
        ensures
            *final(self) == *old(self),
            r.as_nat() == with_bit(old(self).as_nat(), index as nat, value),
    ;

    /// Formats the binary array as a string of `width()` digits, zero padded,
    /// most significant bit first
    fn to_bstring(&self) -> (r: String)
        ensures
            r@ == bstring_of(self.as_nat(), Self::width()),
    ;
}

/// Relies on String::push: the character is appended at the end.
#[verifier::external_body]
fn push_char(s: &mut String, c: char)
    ensures
        final(s)@ == old(s)@.push(c),
{
    s.push(c);
}

/// The `w` lowest bits of `v`, most significant first.
fn format_bits(v: u128, w: usize) -> (r: String)
    requires
        w <= 128,
    ensures
        r@ == bstring_of(v as nat, w as nat),
{
    let mut s = String::new();
    let mut k: usize = 0;
    while k < w
        invariant
            k <= w <= 128,
            s@ == bstring_of(v as nat, w as nat).take(k as int),
        decreases w - k,
    {
        let c = if u128_bit(v, w - 1 - k) {
            '1'
        } else {
            '0'
        };
        push_char(&mut s, c);
        k = k + 1;
        assert(s@ =~= bstring_of(v as nat, w as nat).take(k as int));
    }
    assert(s@ =~= bstring_of(v as nat, w as nat));
    s
}

/// Bit `i` of `v`, read through a one-bit mask, is its digit of weight `2^i`.
proof fn lemma_u128_mask_digit(v: u128, i: u128)
    requires
        i < 128,
    ensures
        ((v & (1u128 << i)) != 0) == bit_of(v as nat, i as nat),
{
    assert(((v & (1u128 << i)) != 0) == ((v >> i) % 2 == 1)) by (bit_vector)
        requires
            i < 128,
    ;
    lemma_u128_shr_is_div(v, i);
}

/// Bit `index` of `v`.
fn u128_bit(v: u128, index: usize) -> (r: bool)
    requires
        index < 128,
    ensures
        r == bit_of(v as nat, index as nat),
{
    proof {
        lemma_u128_mask_digit(v, index as u128);
    }
    (v & (1u128 << index)) != 0
}

/// Bit `i` of `v`, read through a one-bit mask, is its digit of weight `2^i`.
proof fn lemma_u8_mask_digit(v: u8, i: u8)
    requires
        i < 8,
    ensures
        ((v & (1u8 << i)) != 0) == bit_of(v as nat, i as nat),
{
    assert(((v & (1u8 << i)) != 0) == ((v >> i) % 2 == 1)) by (bit_vector)
        requires
            i < 8,
    ;
    lemma_u8_shr_is_div(v, i);
}

/// Clearing bit `i` and or-ing in the masked fill gives `with_bit`.
proof fn lemma_u8_set(v: u8, i: u8, b: bool, fill: u8, r: u8)
    requires
        i < 8,
        fill == (if b { u8::MAX } else { 0u8 }),
        r == v & !(1u8 << i) | ((1u8 << i) & fill),
    ensures
        r as nat == with_bit(v as nat, i as nat, b),
{
    assert forall|j: nat| j < 8 implies #[trigger] bit_of(r as nat, j) == if j == i as nat {
        b
    } else {
        bit_of(v as nat, j)
    } by {
        let k = j as u8;
        assert(((r >> k) % 2 == 1) == if k == i { fill != 0 } else { (v >> k) % 2 == 1 })
            by (bit_vector)
            requires
                i < 8,
                k < 8,
                fill == 0 || fill == u8::MAX,
                r == v & !(1u8 << i) | ((1u8 << i) & fill),
        ;
        lemma_u8_shr_is_div(r, k);
        lemma_u8_shr_is_div(v, k);
    }
    unsigned_int_max_values();
    lemma_with_bit_unique(v as nat, r as nat, i as nat, b, 8);
}

impl BinaryArray for u8 {
    open spec fn width() -> nat {
        8
    }

    open spec fn as_nat(&self) -> nat {
        *self as nat
    }

    fn get_bit(&self, index: usize) -> (r: bool) {
        proof {
            lemma_u8_mask_digit(*self, index as u8);
        }
        (*self & (1u8 << index)) != 0
    }

    fn set_bit(&mut self, index: usize, value: bool) -> (r: u8) {
        let mask: u8 = 1u8 << index;
        let fill: u8 = 0u8.wrapping_sub(value as u8);
        let r: u8 = *self & !mask | (mask & fill);
        proof {
            lemma_u8_set(*self, index as u8, value, fill, r);
        }
        r
    }

    fn to_bstring(&self) -> (r: String) {
        format_bits(*self as u128, 8)
    }
}

/// Bit `i` of `v`, read through a one-bit mask, is its digit of weight `2^i`.
proof fn lemma_u16_mask_digit(v: u16, i: u16)
    requires
        i < 16,
    ensures
        ((v & (1u16 << i)) != 0) == bit_of(v as nat, i as nat),
{
    assert(((v & (1u16 << i)) != 0) == ((v >> i) % 2 == 1)) by (bit_vector)
        requires
            i < 16,
    ;
    lemma_u16_shr_is_div(v, i);
}

/// Clearing bit `i` and or-ing in the masked fill gives `with_bit`.
proof fn lemma_u16_set(v: u16, i: u16, b: bool, fill: u16, r: u16)
    requires
        i < 16,
        fill == (if b { u16::MAX } else { 0u16 }),
        r == v & !(1u16 << i) | ((1u16 << i) & fill),
    ensures
        r as nat == with_bit(v as nat, i as nat, b),
{
    assert forall|j: nat| j < 16 implies #[trigger] bit_of(r as nat, j) == if j == i as nat {
        b
    } else {
        bit_of(v as nat, j)
    } by {
        let k = j as u16;
        assert(((r >> k) % 2 == 1) == if k == i { fill != 0 } else { (v >> k) % 2 == 1 })
            by (bit_vector)
            requires
                i < 16,
                k < 16,
                fill == 0 || fill == u16::MAX,
                r == v & !(1u16 << i) | ((1u16 << i) & fill),
        ;
        lemma_u16_shr_is_div(r, k);
        lemma_u16_shr_is_div(v, k);
    }
    unsigned_int_max_values();
    lemma_with_bit_unique(v as nat, r as nat, i as nat, b, 16);
}

impl BinaryArray for u16 {
    open spec fn width() -> nat {
        16
    }

    open spec fn as_nat(&self) -> nat {
        *self as nat
    }

    fn get_bit(&self, index: usize) -> (r: bool) {
        proof {
            lemma_u16_mask_digit(*self, index as u16);
        }
        (*self & (1u16 << index)) != 0
    }

    fn set_bit(&mut self, index: usize, value: bool) -> (r: u16) {
        let mask: u16 = 1u16 << index;
        let fill: u16 = 0u16.wrapping_sub(value as u16);
        let r: u16 = *self & !mask | (mask & fill);
        proof {
            lemma_u16_set(*self, index as u16, value, fill, r);
        }
        r
    }

    fn to_bstring(&self) -> (r: String) {
        format_bits(*self as u128, 16)
    }
}

/// Bit `i` of `v`, read through a one-bit mask, is its digit of weight `2^i`.
proof fn lemma_u32_mask_digit(v: u32, i: u32)
    requires
        i < 32,
    ensures
        ((v & (1u32 << i)) != 0) == bit_of(v as nat, i as nat),
{
    assert(((v & (1u32 << i)) != 0) == ((v >> i) % 2 == 1)) by (bit_vector)
        requires
            i < 32,
    ;
    lemma_u32_shr_is_div(v, i);
}

/// Clearing bit `i` and or-ing in the masked fill gives `with_bit`.
proof fn lemma_u32_set(v: u32, i: u32, b: bool, fill: u32, r: u32)
    requires
        i < 32,
        fill == (if b { u32::MAX } else { 0u32 }),
        r == v & !(1u32 << i) | ((1u32 << i) & fill),
    ensures
        r as nat == with_bit(v as nat, i as nat, b),
{
    assert forall|j: nat| j < 32 implies #[trigger] bit_of(r as nat, j) == if j == i as nat {
        b
    } else {
        bit_of(v as nat, j)
    } by {
        let k = j as u32;
        assert(((r >> k) % 2 == 1) == if k == i { fill != 0 } else { (v >> k) % 2 == 1 })
            by (bit_vector)
            requires
                i < 32,
                k < 32,
                fill == 0 || fill == u32::MAX,
                r == v & !(1u32 << i) | ((1u32 << i) & fill),
        ;
        lemma_u32_shr_is_div(r, k);
        lemma_u32_shr_is_div(v, k);
    }
    unsigned_int_max_values();
    lemma_with_bit_unique(v as nat, r as nat, i as nat, b, 32);
}

impl BinaryArray for u32 {
    open spec fn width() -> nat {
        32
    }

    open spec fn as_nat(&self) -> nat {
        *self as nat
    }

    fn get_bit(&self, index: usize) -> (r: bool) {
        proof {
            lemma_u32_mask_digit(*self, index as u32);
        }
        (*self & (1u32 << index)) != 0
    }

    fn set_bit(&mut self, index: usize, value: bool) -> (r: u32) {
        let mask: u32 = 1u32 << index;
        let fill: u32 = 0u32.wrapping_sub(value as u32);
        let r: u32 = *self & !mask | (mask & fill);
        proof {
            lemma_u32_set(*self, index as u32, value, fill, r);
        }
        r
    }

    fn to_bstring(&self) -> (r: String) {
        format_bits(*self as u128, 32)
    }
}

/// Bit `i` of `v`, read through a one-bit mask, is its digit of weight `2^i`.
proof fn lemma_u64_mask_digit(v: u64, i: u64)
    requires
        i < 64,
    ensures
        ((v & (1u64 << i)) != 0) == bit_of(v as nat, i as nat),
{
    assert(((v & (1u64 << i)) != 0) == ((v >> i) % 2 == 1)) by (bit_vector)
        requires
            i < 64,
    ;
    lemma_u64_shr_is_div(v, i);
}

/// Clearing bit `i` and or-ing in the masked fill gives `with_bit`.
proof fn lemma_u64_set(v: u64, i: u64, b: bool, fill: u64, r: u64)
    requires
        i < 64,
        fill == (if b { u64::MAX } else { 0u64 }),
        r == v & !(1u64 << i) | ((1u64 << i) & fill),
    ensures
        r as nat == with_bit(v as nat, i as nat, b),
{
    assert forall|j: nat| j < 64 implies #[trigger] bit_of(r as nat, j) == if j == i as nat {
        b
    } else {
        bit_of(v as nat, j)
    } by {
        let k = j as u64;
        assert(((r >> k) % 2 == 1) == if k == i { fill != 0 } else { (v >> k) % 2 == 1 })
            by (bit_vector)
            requires
                i < 64,
                k < 64,
                fill == 0 || fill == u64::MAX,
                r == v & !(1u64 << i) | ((1u64 << i) & fill),
        ;
        lemma_u64_shr_is_div(r, k);
        lemma_u64_shr_is_div(v, k);
    }
    unsigned_int_max_values();
    lemma_with_bit_unique(v as nat, r as nat, i as nat, b, 64);
}

impl BinaryArray for u64 {
    open spec fn width() -> nat {
        64
    }

    open spec fn as_nat(&self) -> nat {
        *self as nat
    }

    fn get_bit(&self, index: usize) -> (r: bool) {
        proof {
            lemma_u64_mask_digit(*self, index as u64);
        }
        (*self & (1u64 << index)) != 0
    }

    fn set_bit(&mut self, index: usize, value: bool) -> (r: u64) {
        let mask: u64 = 1u64 << index;
        let fill: u64 = 0u64.wrapping_sub(value as u64);
        let r: u64 = *self & !mask | (mask & fill);
        proof {
            lemma_u64_set(*self, index as u64, value, fill, r);
        }
        r
    }

    fn to_bstring(&self) -> (r: String) {
        format_bits(*self as u128, 64)
    }
}

/// Clearing bit `i` and or-ing in the masked fill gives `with_bit`.
proof fn lemma_u128_set(v: u128, i: u128, b: bool, fill: u128, r: u128)
    requires
        i < 128,
        fill == (if b { u128::MAX } else { 0u128 }),
        r == v & !(1u128 << i) | ((1u128 << i) & fill),
    ensures
        r as nat == with_bit(v as nat, i as nat, b),
{
    assert forall|j: nat| j < 128 implies #[trigger] bit_of(r as nat, j) == if j == i as nat {
        b
    } else {
        bit_of(v as nat, j)
    } by {
        let k = j as u128;
        assert(((r >> k) % 2 == 1) == if k == i { fill != 0 } else { (v >> k) % 2 == 1 })
            by (bit_vector)
            requires
                i < 128,
                k < 128,
                fill == 0 || fill == u128::MAX,
                r == v & !(1u128 << i) | ((1u128 << i) & fill),
        ;
        lemma_u128_shr_is_div(r, k);
        lemma_u128_shr_is_div(v, k);
    }
    unsigned_int_max_values();
    lemma_with_bit_unique(v as nat, r as nat, i as nat, b, 128);
}

impl BinaryArray for u128 {
    open spec fn width() -> nat {
        128
    }

    open spec fn as_nat(&self) -> nat {
        *self as nat
    }

    fn get_bit(&self, index: usize) -> (r: bool) {
        proof {
            lemma_u128_mask_digit(*self, index as u128);
        }
        (*self & (1u128 << index)) != 0
    }

    fn set_bit(&mut self, index: usize, value: bool) -> (r: u128) {
        let mask: u128 = 1u128 << index;
        let fill: u128 = 0u128.wrapping_sub(value as u128);
        let r: u128 = *self & !mask | (mask & fill);
        proof {
            lemma_u128_set(*self, index as u128, value, fill, r);
        }
        r
    }

    fn to_bstring(&self) -> (r: String) {
        format_bits(*self as u128, 128)
    }
}

/// Bit `i` of `v`, read through a one-bit mask, is its digit of weight `2^i`.
proof fn lemma_usize_mask_digit(v: usize, i: usize)
    requires
        i < usize::BITS,
    ensures
        ((v & (1usize << i)) != 0) == bit_of(v as nat, i as nat),
{
    assert(((v & (1usize << i)) != 0) == ((v >> i) % 2 == 1)) by (bit_vector)
        requires
            i < usize::BITS,
    ;
    lemma_usize_shr_is_div(v, i);
}

/// Clearing bit `i` and or-ing in the masked fill gives `with_bit`.
proof fn lemma_usize_set(v: usize, i: usize, b: bool, fill: usize, r: usize)
    requires
        i < usize::BITS,
        fill == (if b { usize::MAX } else { 0usize }),
        r == v & !(1usize << i) | ((1usize << i) & fill),
    ensures
        r as nat == with_bit(v as nat, i as nat, b),
{
    assert forall|j: nat| j < usize::BITS implies #[trigger] bit_of(r as nat, j) == if j == i as nat {
        b
    } else {
        bit_of(v as nat, j)
    } by {
        let k = j as usize;
        assert(((r >> k) % 2 == 1) == if k == i { fill != 0 } else { (v >> k) % 2 == 1 })
            by (bit_vector)
            requires
                i < usize::BITS,
                k < usize::BITS,
                // The solver for bit vectors cannot name `usize::MAX` for either word size,
                // so the all-ones fill is described as the largest value instead.
                fill == 0 || fill >= fill | (1usize << i),
                r == v & !(1usize << i) | ((1usize << i) & fill),
        ;
        lemma_usize_shr_is_div(r, k);
        lemma_usize_shr_is_div(v, k);
    }
    unsigned_int_max_values();
    lemma_with_bit_unique(v as nat, r as nat, i as nat, b, usize::BITS as nat);
}

/// The native word: its width is `usize::BITS`, which depends on the target.
impl BinaryArray for usize {
    open spec fn width() -> nat {
        usize::BITS as nat
    }

    open spec fn as_nat(&self) -> nat {
        *self as nat
    }

    fn get_bit(&self, index: usize) -> (r: bool) {
        proof {
            lemma_usize_mask_digit(*self, index as usize);
        }
        (*self & (1usize << index)) != 0
    }

    fn set_bit(&mut self, index: usize, value: bool) -> (r: usize) {
        let mask: usize = 1usize << index;
        let fill: usize = 0usize.wrapping_sub(value as usize);
        let r: usize = *self & !mask | (mask & fill);
        proof {
            lemma_usize_set(*self, index as usize, value, fill, r);
        }
        r
    }

    fn to_bstring(&self) -> (r: String) {
        format_bits(*self as u128, usize::BITS as usize)
    }
}

} // verus!
