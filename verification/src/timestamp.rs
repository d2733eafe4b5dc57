//! Moments in time, in seconds, kept as IEEE 754 binary64 bit patterns.

use vstd::prelude::*;

verus! {

/// A moment or a duration in seconds: the bit pattern of a binary64 number, as
/// `f64::to_bits` gives it. Two patterns are `==` if they are the same bits.
#[derive(Clone, Copy, Debug, PartialEq, Eq, Structural)]
pub struct Timestamp {
    pub bits: u64,
}

/// The magnitude (all bits but the sign) of an infinity; what lies above is not a number.
pub const INFINITE: u64 = 0x7ff0_0000_0000_0000;

/// The weight of the sign bit.
pub const SIGN: u64 = 0x8000_0000_0000_0000;

/// The number of fractions that share one exponent.
pub const FRACTIONS: u64 = 0x0010_0000_0000_0000;

/// The absolute value that a magnitude encodes, in units of the smallest positive
/// binary64 number. An infinity counts as the value after the largest finite one.
pub open spec fn scaled_magnitude(magnitude: nat) -> nat {
    let exponent = magnitude / (FRACTIONS as nat);
    let fraction = magnitude % (FRACTIONS as nat);
    if exponent == 0 {
        fraction
    } else {
        (FRACTIONS as nat + fraction) * vstd::arithmetic::power2::pow2((exponent - 1) as nat)
    }
}

impl Timestamp {
    pub open spec fn negative(self) -> bool {
        self.bits >= SIGN
    }

    pub open spec fn magnitude(self) -> nat {
        (self.bits % SIGN) as nat
    }

    pub open spec fn nan(self) -> bool {
        self.magnitude() > INFINITE
    }

    /// The number that the pattern encodes, in units of the smallest positive
    /// binary64 number.
    pub open spec fn value(self) -> int {
        if self.negative() {
            -(scaled_magnitude(self.magnitude()) as int)
        } else {
            scaled_magnitude(self.magnitude()) as int
        }
    }

    /// `self <= other` on binary64 numbers: false if either is not a number.
    pub open spec fn at_most(self, other: Timestamp) -> bool {
        !self.nan() && !other.nan() && self.value() <= other.value()
    }

    /// `self < other` on binary64 numbers: false if either is not a number.
    pub open spec fn below(self, other: Timestamp) -> bool {
        !self.nan() && !other.nan() && self.value() < other.value()
    }

    /// Whether the pattern is not a number.
    pub fn is_nan(self) -> (answer: bool)
        ensures
            answer == self.nan(),
    {
        self.bits % SIGN > INFINITE
    }

    /// Whether `self` is not after `other`; no moment compares to one that is not a number.
    pub fn is_at_most(self, other: Timestamp) -> (answer: bool)
        ensures
            answer == self.at_most(other),
    {
        let a: u64 = self.bits % SIGN;
        let b: u64 = other.bits % SIGN;
        proof {
            lemma_magnitude_order(a as nat, b as nat);
        }
        if self.is_nan() || other.is_nan() {
            false
        } else if self.bits < SIGN {
            if other.bits < SIGN { a <= b } else { a == 0 && b == 0 }
        } else {
            if other.bits < SIGN { true } else { b <= a }
        }
    }

    /// Whether `self` is before `other`; no moment compares to one that is not a number.
    pub fn is_below(self, other: Timestamp) -> (answer: bool)
        ensures
            answer == self.below(other),
    {
        !self.is_nan() && !other.is_nan() && !other.is_at_most(self)
    }
}

/// A larger magnitude encodes a larger absolute value, and only the zero magnitude
/// encodes zero.
pub proof fn lemma_magnitude_order(a: nat, b: nat)
    ensures
        a < b <==> scaled_magnitude(a) < scaled_magnitude(b),
        a == b <==> scaled_magnitude(a) == scaled_magnitude(b),
        a == 0 <==> scaled_magnitude(a) == 0,
        b == 0 <==> scaled_magnitude(b) == 0,
{
    if a < b {
        lemma_magnitude_increases(a, b);
    } else if b < a {
        lemma_magnitude_increases(b, a);
    }
    if a > 0 {
        lemma_magnitude_increases(0, a);
    }
    if b > 0 {
        lemma_magnitude_increases(0, b);
    }
}

proof fn lemma_magnitude_increases(a: nat, b: nat)
    requires
        a < b,
    ensures
        scaled_magnitude(a) < scaled_magnitude(b),
{
    let unit = FRACTIONS as nat;
    let ea = a / unit;
    let eb = b / unit;
    let fa = a % unit;
    let fb = b % unit;
    if ea == eb {
        assert(fa < fb);
        if ea > 0 {
            let p = vstd::arithmetic::power2::pow2((ea - 1) as nat);
            vstd::arithmetic::power2::lemma_pow2_pos((ea - 1) as nat);
            assert((unit + fa) * p < (unit + fb) * p) by (nonlinear_arith)
                requires
                    fa < fb,
                    p > 0,
            ;
        }
    } else {
        assert(ea < eb);
        let q = vstd::arithmetic::power2::pow2((eb - 1) as nat);
        vstd::arithmetic::power2::lemma_pow2_pos((eb - 1) as nat);
        assert((unit + fb) * q >= unit * q) by (nonlinear_arith);
        if ea == 0 {
            assert(unit * q >= unit) by (nonlinear_arith)
                requires
                    q > 0,
            ;
        } else {
            let p = vstd::arithmetic::power2::pow2((ea - 1) as nat);
            vstd::arithmetic::power2::lemma_pow2_pos((ea - 1) as nat);
            assert(q >= 2 * p) by {
                vstd::arithmetic::power2::lemma_pow2_adds((ea - 1) as nat, 1);
                vstd::arithmetic::power2::lemma2_to64();
                if ea < eb - 1 {
                    vstd::arithmetic::power2::lemma_pow2_strictly_increases(ea, (eb - 1) as nat);
                }
            }
            assert((unit + fa) * p < unit * q) by (nonlinear_arith)
                requires
                    fa < unit,
                    p > 0,
                    q >= 2 * p,
            ;
        }
    }
}

/// Not a number are the patterns whose exponent bits are all set and whose fraction is not
/// zero.
pub proof fn law_nan_bits(t: Timestamp)
    ensures
        t.nan() <==> t.bits & 0x7ff0_0000_0000_0000 == 0x7ff0_0000_0000_0000 && t.bits
            & 0x000f_ffff_ffff_ffff != 0,
{
    let bits = t.bits;
    assert(bits % 0x8000_0000_0000_0000 > 0x7ff0_0000_0000_0000 <==> bits & 0x7ff0_0000_0000_0000
        == 0x7ff0_0000_0000_0000 && bits & 0x000f_ffff_ffff_ffff != 0) by (bit_vector);
}

/// The first bit is the sign: patterns that differ in it alone encode opposite numbers.
pub proof fn law_first_bit_is_the_sign(positive: Timestamp, negative: Timestamp)
    requires
        positive.bits < 0x8000_0000_0000_0000,
        negative.bits == positive.bits + 0x8000_0000_0000_0000,
    ensures
        positive.value() == scaled_magnitude(positive.bits as nat),
        negative.value() == -positive.value(),
        negative.nan() == positive.nan(),
{
}

/// Numbers below twice the smallest normal number are as many units as their magnitude
/// says, and from the smallest normal number on, one more in the exponent doubles the
/// number.
pub proof fn law_exponent_doubles(magnitude: nat)
    ensures
        magnitude < 0x0020_0000_0000_0000 ==> scaled_magnitude(magnitude) == magnitude,
        magnitude >= 0x0010_0000_0000_0000 ==> scaled_magnitude(magnitude + 0x0010_0000_0000_0000)
            == 2 * scaled_magnitude(magnitude),
{
    let unit: nat = 0x0010_0000_0000_0000;
    let exponent = magnitude / unit;
    let fraction = magnitude % unit;
    vstd::arithmetic::power2::lemma2_to64();
    if magnitude >= unit {
        let p = vstd::arithmetic::power2::pow2((exponent - 1) as nat);
        assert(exponent >= 1);
        assert((magnitude + unit) / unit == exponent + 1);
        assert((magnitude + unit) % unit == fraction);
        vstd::arithmetic::power2::lemma_pow2_adds((exponent - 1) as nat, 1);
        assert(vstd::arithmetic::power2::pow2(exponent) == 2 * p);
        assert((unit + fraction) * (2 * p) == 2 * ((unit + fraction) * p)) by (nonlinear_arith);
        if magnitude < 2 * unit {
            assert(exponent == 1);
            assert(p == 1);
            assert((unit + fraction) * p == unit + fraction) by (nonlinear_arith)
                requires
                    p == 1,
            ;
        }
    } else {
        assert(exponent == 0);
    }
}

/// Moments are ordered as their numbers are; what is not a number is neither before, nor
/// after, nor at any moment.
pub proof fn law_order_of_moments(a: Timestamp, b: Timestamp)
    ensures
        a.nan() || b.nan() ==> !a.at_most(b) && !a.below(b),
        !a.nan() && !b.nan() ==> (a.at_most(b) <==> a.value() <= b.value()),
        !a.nan() && !b.nan() ==> (a.below(b) <==> a.value() < b.value()),
        !a.nan() && !b.nan() && a.bits < 0x8000_0000_0000_0000 && b.bits < 0x8000_0000_0000_0000
            ==> (a.at_most(b) <==> a.bits <= b.bits),
        !a.nan() && !b.nan() && a.bits > 0x8000_0000_0000_0000 && b.bits > 0x8000_0000_0000_0000
            ==> (a.at_most(b) <==> b.bits <= a.bits),
        !a.nan() && !b.nan() && a.bits >= 0x8000_0000_0000_0000 && b.bits < 0x8000_0000_0000_0000
            ==> a.at_most(b),
        !a.nan() && !b.nan() && a.bits < 0x8000_0000_0000_0000 && b.bits > 0x8000_0000_0000_0000
            ==> !a.at_most(b),
{
    lemma_magnitude_order(a.magnitude(), b.magnitude());
}

/// Comparing two moments compares their numbers: patterns with a clear sign bit ascend,
/// those with a set sign bit descend and come first, the two zeros are the same moment, and
/// what is not a number compares to nothing.
pub proof fn law_comparing_compares_numbers(a: Timestamp, b: Timestamp, at_most: bool, below: bool)
    requires
        call_ensures(Timestamp::is_at_most, (a, b), at_most),
        call_ensures(Timestamp::is_below, (a, b), below),
    ensures
        a.nan() || b.nan() ==> !at_most && !below,
        !a.nan() && !b.nan() ==> {
            &&& at_most <==> a.value() <= b.value()
            &&& below <==> a.value() < b.value()
            &&& a.bits < 0x8000_0000_0000_0000 && b.bits < 0x8000_0000_0000_0000 ==> at_most == (
            a.bits <= b.bits)
            &&& a.bits > 0x8000_0000_0000_0000 && b.bits > 0x8000_0000_0000_0000 ==> at_most == (
            b.bits <= a.bits)
            &&& a.bits >= 0x8000_0000_0000_0000 && b.bits < 0x8000_0000_0000_0000 ==> at_most
            &&& a.bits < 0x8000_0000_0000_0000 && b.bits > 0x8000_0000_0000_0000 ==> !at_most
            &&& a.bits == 0 && b.bits == 0x8000_0000_0000_0000 ==> at_most && !below
        },
{
    law_order_of_moments(a, b);
    lemma_magnitude_order(a.magnitude(), b.magnitude());
}

} // verus!
