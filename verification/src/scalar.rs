//! Fixed-width scalars: 256-bit unsigned integers in little-endian `u64`
//! limb form, as the scalar field of BLS12-377 stores them.
//!
//! The engine consumes a scalar through its base-256 digits (one 8-bit
//! window per digit, 32 windows in all), so the mathematical value of a
//! scalar is defined from its digits; `lemma_limb_digits` ties that
//! definition back to the plain little-endian limb value.

use vstd::prelude::*;

verus! {

/// A 256-bit scalar, little-endian limbs.
#[derive(Clone, Copy)]
pub struct Scalar {
    pub limbs: [u64; 4],
}

/// The 8-bit digit of `s` at window `w` (window 0 is the least significant).
pub open spec fn spec_digit(s: Scalar, w: int) -> u64 {
    (s.limbs[w / 8] >> (((w % 8) * 8) as u64)) & 0xff
}

/// Value contributed by windows `w..32`, in units of `256^w`:
/// `digit(w) + 256 * digit(w+1) + ...`.
pub open spec fn digits_val_from(s: Scalar, w: int) -> nat
    decreases 32 - w,
{
    if w < 0 || w >= 32 {
        0
    } else {
        spec_digit(s, w) as nat + 256 * digits_val_from(s, w + 1)
    }
}

/// The mathematical value of a scalar: its digits combined in base 256.
pub open spec fn scalar_val(s: Scalar) -> nat {
    digits_val_from(s, 0)
}

impl View for Scalar {
    type V = nat;

    open spec fn view(&self) -> nat {
        scalar_val(*self)
    }
}

impl Scalar {
    /// The scalar with value `k`.
    pub fn from_u64(k: u64) -> (s: Scalar)
        ensures
            s@ == k,
    {
        let s = Scalar { limbs: [k, 0, 0, 0] };
        proof {
            lemma_upper_digits_zero(s, 8);
            lemma_limb_digits(k);
            reveal_with_fuel(digits_val_from, 9);
            assert(scalar_val(s) == limb_digits_val(k));
        }
        s
    }

    /// Extract the 8-bit digit at window `w`.
    pub fn digit(&self, w: usize) -> (d: u64)
        requires
            w < 32,
        ensures
            d == spec_digit(*self, w as int),
            d < 256,
    {
        let sh: u64 = ((w % 8) * 8) as u64;
        let d = (self.limbs[w / 8] >> sh) & 0xff;
        proof {
            let x = self.limbs[w as int / 8];
            assert(sh < 64);
            assert((x >> sh) & 0xff < 256) by (bit_vector);
        }
        d
    }
}

/// Every digit is an 8-bit value.
pub proof fn lemma_digit_bound(s: Scalar, w: int)
    ensures
        spec_digit(s, w) < 256,
{
    let x = s.limbs[w / 8];
    let sh = (((w % 8) * 8) as u64);
    assert((x >> sh) & 0xff < 256) by (bit_vector);
}

/// Windows whose limbs are zero contribute nothing.
pub proof fn lemma_upper_digits_zero(s: Scalar, w: int)
    requires
        8 <= w <= 32,
        s.limbs[1] == 0,
        s.limbs[2] == 0,
        s.limbs[3] == 0,
    ensures
        digits_val_from(s, w) == 0,
    decreases 32 - w,
{
    if w < 32 {
        let sh = (((w % 8) * 8) as u64);
        assert((0u64 >> sh) & 0xff == 0) by (bit_vector);
        assert(s.limbs[w / 8] == 0);
        assert(spec_digit(s, w) == 0);
        lemma_upper_digits_zero(s, w + 1);
    }
}

/// The value of one limb recombined from its eight 8-bit digits.
pub open spec fn limb_digits_val(x: u64) -> nat {
    ((x >> 0) & 0xff) as nat + 256 * (((x >> 8) & 0xff) as nat + 256 * (((x >> 16) & 0xff) as nat
        + 256 * (((x >> 24) & 0xff) as nat + 256 * (((x >> 32) & 0xff) as nat + 256 * (((x >> 40)
        & 0xff) as nat + 256 * (((x >> 48) & 0xff) as nat + 256 * ((x >> 56) & 0xff) as nat))))))
}

/// The value of a scalar is its plain little-endian limb value:
/// `limbs[0] + 2^64 * limbs[1] + 2^128 * limbs[2] + 2^192 * limbs[3]`.
pub proof fn lemma_scalar_val_limbs(s: Scalar)
    ensures
        scalar_val(s) == s.limbs[0] + s.limbs[1] * 0x10000000000000000
            + s.limbs[2] * 0x100000000000000000000000000000000
            + s.limbs[3] * 0x1000000000000000000000000000000000000000000000000,
{
    reveal_with_fuel(digits_val_from, 9);
    lemma_limb_digits(s.limbs[0]);
    lemma_limb_digits(s.limbs[1]);
    lemma_limb_digits(s.limbs[2]);
    lemma_limb_digits(s.limbs[3]);
    assert(digits_val_from(s, 24) == limb_digits_val(s.limbs[3]));
    assert(digits_val_from(s, 16) == limb_digits_val(s.limbs[2]) + 0x10000000000000000
        * digits_val_from(s, 24));
    assert(digits_val_from(s, 8) == limb_digits_val(s.limbs[1]) + 0x10000000000000000
        * digits_val_from(s, 16));
    assert(digits_val_from(s, 0) == limb_digits_val(s.limbs[0]) + 0x10000000000000000
        * digits_val_from(s, 8));
}

/// Every `u64` equals the base-256 recombination of its eight bytes.
pub proof fn lemma_limb_digits(x: u64)
    ensures
        limb_digits_val(x) == x,
{
    assert(((x >> 0) & 0xff) as nat + 256 * (((x >> 8) & 0xff) as nat + 256 * (((x >> 16)
        & 0xff) as nat + 256 * (((x >> 24) & 0xff) as nat + 256 * (((x >> 32) & 0xff) as nat + 256
        * (((x >> 40) & 0xff) as nat + 256 * (((x >> 48) & 0xff) as nat + 256 * ((x >> 56)
        & 0xff) as nat)))))) == x) by (bit_vector);
}

} // verus!
