use vstd::arithmetic::power2::{lemma_pow2_pos, lemma_pow2_strictly_increases, pow2};
use vstd::prelude::*;

verus! {

/// Two to the 23rd: the unit of the exponent field of a binary32 pattern.
pub const FRACTION_UNIT: u32 = 0x80_0000;

/// Two to the 31st: the sign bit of a binary32 pattern.
pub const SIGN_BIT: u32 = 0x8000_0000;

/// The pattern of positive infinity.
pub const INFINITY_BITS: u32 = 0x7f80_0000;

/// A depth sample, held as the bit pattern of an IEEE-754 binary32 number.
///
/// The frame buffer keeps the depth of each pixel in this form; callers that
/// compute depths in single precision hand over the number's bits.
#[derive(Clone, Copy, Debug, PartialEq, Eq, Structural)]
pub struct Depth {
    pub bits: u32,
}

/// The bits below the sign bit.
pub open spec fn unsigned_part(bits: u32) -> nat {
    (bits as nat) % (SIGN_BIT as nat)
}

/// The biased exponent field.
pub open spec fn exponent_field(bits: u32) -> nat {
    unsigned_part(bits) / (FRACTION_UNIT as nat)
}

/// The fraction field.
pub open spec fn fraction_field(bits: u32) -> nat {
    unsigned_part(bits) % (FRACTION_UNIT as nat)
}

/// The absolute value of a binary32 pattern, scaled by two to the 149th so
/// that every finite value is an integer. Infinity, whose exponent field is
/// all ones, lands above every finite value.
pub open spec fn scaled_magnitude(bits: u32) -> nat {
    if exponent_field(bits) == 0 {
        fraction_field(bits)
    } else {
        (fraction_field(bits) + FRACTION_UNIT as nat) * pow2((exponent_field(bits) - 1) as nat)
    }
}

/// The signed value of a binary32 pattern, scaled by two to the 149th.
pub open spec fn scaled_value(bits: u32) -> int {
    if bits >= SIGN_BIT {
        -(scaled_magnitude(bits) as int)
    } else {
        scaled_magnitude(bits) as int
    }
}

impl Depth {
    /// Not a number: all exponent bits set and a non-zero fraction.
    pub open spec fn spec_is_nan(self) -> bool {
        exponent_field(self.bits) == 255 && fraction_field(self.bits) != 0
    }

    /// Neither infinite nor a NaN.
    pub open spec fn spec_is_finite(self) -> bool {
        exponent_field(self.bits) != 255
    }

    /// The exact value, scaled by two to the 149th.
    pub open spec fn value(self) -> int {
        scaled_value(self.bits)
    }

    /// IEEE-754 `<`: false when either side is a NaN, otherwise the order of
    /// the exact values (so the two zeros compare equal).
    pub open spec fn spec_lt(self, other: Depth) -> bool {
        !self.spec_is_nan() && !other.spec_is_nan() && self.value() < other.value()
    }

    pub fn from_bits(bits: u32) -> (r: Depth)
        ensures
            r.bits == bits,
    {
        Depth { bits }
    }

    pub fn to_bits(self) -> (r: u32)
        ensures
            r == self.bits,
    {
        self.bits
    }

    /// Positive infinity: the depth of a pixel that nothing has covered yet.
    pub fn infinity() -> (r: Depth)
        ensures
            r.bits == INFINITY_BITS,
            !r.spec_is_nan(),
            !r.spec_is_finite(),
            forall|d: Depth| d.spec_is_finite() ==> #[trigger] d.spec_lt(r),
    {
        proof {
            assert(exponent_field(INFINITY_BITS) == 255);
            assert(fraction_field(INFINITY_BITS) == 0);
            assert forall|d: Depth| d.spec_is_finite() implies #[trigger] d.spec_lt(
                Depth { bits: INFINITY_BITS },
            ) by {
                lemma_finite_below_infinity(d.bits);
            }
        }
        Depth { bits: INFINITY_BITS }
    }

    pub fn is_nan(self) -> (r: bool)
        ensures
            r == self.spec_is_nan(),
    {
        let u = self.bits % SIGN_BIT;
        u / FRACTION_UNIT == 255 && u % FRACTION_UNIT != 0
    }

    pub fn is_finite(self) -> (r: bool)
        ensures
            r == self.spec_is_finite(),
    {
        (self.bits % SIGN_BIT) / FRACTION_UNIT != 255
    }

    /// IEEE-754 less-than on the two numbers that the patterns encode.
    pub fn lt(self, other: Depth) -> (r: bool)
        ensures
            r == self.spec_lt(other),
    {
        if self.is_nan() || other.is_nan() {
            return false;
        }
        let ma = self.bits % SIGN_BIT;
        let mb = other.bits % SIGN_BIT;
        let na = self.bits >= SIGN_BIT;
        let nb = other.bits >= SIGN_BIT;
        proof {
            lemma_magnitude_zero(self.bits);
            lemma_magnitude_zero(other.bits);
            lemma_magnitude_order(self.bits, other.bits);
            lemma_magnitude_order(other.bits, self.bits);
        }
        if ma == 0 && mb == 0 {
            false
        } else if !na && !nb {
            ma < mb
        } else if na && nb {
            mb < ma
        } else {
            na
        }
    }
}

/// The magnitude is zero exactly for the two zeros.
pub proof fn lemma_magnitude_zero(bits: u32)
    ensures
        (scaled_magnitude(bits) == 0) <==> (unsigned_part(bits) == 0),
{
    if exponent_field(bits) != 0 {
        lemma_pow2_pos((exponent_field(bits) - 1) as nat);
        let f = fraction_field(bits) + FRACTION_UNIT as nat;
        let p = pow2((exponent_field(bits) - 1) as nat);
        assert(f * p > 0) by (nonlinear_arith)
            requires
                f > 0,
                p > 0,
        ;
    }
}

/// The magnitude grows strictly with the bits below the sign bit.
pub proof fn lemma_magnitude_order(a: u32, b: u32)
    ensures
        unsigned_part(a) < unsigned_part(b) ==> scaled_magnitude(a) < scaled_magnitude(b),
{
    if unsigned_part(a) < unsigned_part(b) {
        let unit = FRACTION_UNIT as nat;
        let ea = exponent_field(a);
        let eb = exponent_field(b);
        let fa = fraction_field(a);
        let fb = fraction_field(b);
        assert(unsigned_part(a) == ea * unit + fa);
        assert(unsigned_part(b) == eb * unit + fb);
        assert(ea <= eb) by (nonlinear_arith)
            requires
                ea * unit + fa < eb * unit + fb,
                fa < unit,
                fb < unit,
        ;
        if ea == eb {
            assert(fa < fb) by (nonlinear_arith)
                requires
                    ea * unit + fa < eb * unit + fb,
                    ea == eb,
            ;
            if ea != 0 {
                let p = pow2((ea - 1) as nat);
                lemma_pow2_pos((ea - 1) as nat);
                assert((fa + unit) * p < (fb + unit) * p) by (nonlinear_arith)
                    requires
                        fa < fb,
                        p > 0,
                ;
            }
        } else {
            // A larger exponent outweighs any fraction.
            let pb = pow2((eb - 1) as nat);
            lemma_pow2_pos((eb - 1) as nat);
            assert(unit * pb <= scaled_magnitude(b)) by (nonlinear_arith)
                requires
                    scaled_magnitude(b) == (fb + unit) * pb,
                    pb > 0,
            ;
            if ea == 0 {
                assert(unit <= unit * pb) by (nonlinear_arith)
                    requires
                        pb >= 1,
                ;
            } else {
                let pa = pow2((ea - 1) as nat);
                lemma_pow2_pos((ea - 1) as nat);
                if ea < eb - 1 {
                    lemma_pow2_strictly_increases(ea, (eb - 1) as nat);
                }
                vstd::arithmetic::power2::lemma_pow2_unfold(ea);
                assert(pow2(ea) == 2 * pa);
                assert(pow2(ea) <= pb);
                assert((fa + unit) * pa < unit * pb) by (nonlinear_arith)
                    requires
                        fa < unit,
                        2 * pa <= pb,
                        pa > 0,
                ;
            }
        }
    }
}

/// Every finite pattern lies below positive infinity.
pub proof fn lemma_finite_below_infinity(bits: u32)
    requires
        exponent_field(bits) != 255,
    ensures
        scaled_value(bits) < scaled_value(INFINITY_BITS),
{
    assert(unsigned_part(INFINITY_BITS) == 255 * (FRACTION_UNIT as nat));
    assert(unsigned_part(bits) < 255 * (FRACTION_UNIT as nat)) by {
        assert(exponent_field(bits) < 255);
    }
    lemma_magnitude_order(bits, INFINITY_BITS);
}

} // verus!
