//! Measured quantities: stored, ordered and compared exactly.

use vstd::arithmetic::power2::{
    lemma2_to64, lemma2_to64_rest, lemma_pow2_adds, lemma_pow2_pos, lemma_pow2_strictly_increases,
    lemma_pow2_unfold, pow2,
};
use vstd::prelude::*;

verus! {

/// The bit pattern of the sign: `-0.0`.
pub const SIGN_BIT: u64 = 0x8000_0000_0000_0000;

/// The bit pattern of positive infinity.
pub const INFINITY_BITS: u64 = 0x7FF0_0000_0000_0000;

/// Two to the 52nd: the weight of the lowest exponent bit.
pub const EXPONENT_UNIT: u64 = 0x0010_0000_0000_0000;

/// The bit pattern of one.
pub const ONE_BITS: u64 = 0x3FF0_0000_0000_0000;

/// The largest number that is told to be whole: two to the 24th.
pub const MAX_WHOLE: u32 = 0x0100_0000;

/// The bit pattern of the largest number that is told to be whole.
pub const MAX_WHOLE_BITS: u64 = 0x4170_0000_0000_0000;

/// A measured quantity, held as the 64 bits of its IEEE-754 double.
///
/// A single-precision value is widened first, which keeps it exactly. `==`
/// compares the bits; `below` and `at_most` compare the numbers, as `<` and
/// `<=` do on doubles: nothing is below or at most a NaN, and the two zeros are
/// neither below the other.
#[derive(Clone, Copy, Debug, PartialEq, Eq, Structural)]
pub struct Measure {
    /// The IEEE-754 bits.
    pub bits: u64,
}

impl Measure {
    /// The bits without the sign.
    pub open spec fn magnitude(self) -> int {
        if self.bits >= SIGN_BIT {
            self.bits - SIGN_BIT
        } else {
            self.bits as int
        }
    }

    /// Whether the value is not a number.
    pub open spec fn nan(self) -> bool {
        self.magnitude() > INFINITY_BITS
    }

    /// The place of a number in the order of all numbers.
    pub open spec fn rank(self) -> int {
        if self.bits >= SIGN_BIT {
            -self.magnitude()
        } else {
            self.magnitude()
        }
    }

    /// `self < other` on numbers.
    pub open spec fn lt(self, other: Measure) -> bool {
        !self.nan() && !other.nan() && self.rank() < other.rank()
    }

    /// `self <= other` on numbers.
    pub open spec fn le(self, other: Measure) -> bool {
        !self.nan() && !other.nan() && self.rank() <= other.rank()
    }

    /// Whether the value is a number, and not an infinite one.
    pub open spec fn finite(self) -> bool {
        self.magnitude() < INFINITY_BITS
    }

    /// The number itself, in units of the smallest positive double.
    pub open spec fn units(self) -> int
        recommends
            self.finite(),
    {
        if self.bits >= SIGN_BIT {
            -magnitude_units(self.magnitude())
        } else {
            magnitude_units(self.magnitude())
        }
    }

    /// Whether the number is the integer `n`.
    pub open spec fn is_whole(self, n: int) -> bool {
        self.finite() && self.units() == n * (Measure { bits: ONE_BITS }).units()
    }

    /// A measure from its IEEE-754 bits.
    pub fn from_bits(bits: u64) -> (m: Measure)
        ensures
            m.bits == bits,
    {
        Measure { bits }
    }

    /// Whether the value is not a number.
    pub fn is_nan(self) -> (r: bool)
        ensures
            r == self.nan(),
    {
        if self.bits >= SIGN_BIT {
            self.bits - SIGN_BIT > INFINITY_BITS
        } else {
            self.bits > INFINITY_BITS
        }
    }

    /// Whether this number is smaller than `other`.
    pub fn below(self, other: Measure) -> (r: bool)
        ensures
            r == self.lt(other),
    {
        if self.is_nan() || other.is_nan() {
            return false;
        }
        if self.bits >= SIGN_BIT {
            if other.bits >= SIGN_BIT {
                other.bits < self.bits
            } else {
                self.bits > SIGN_BIT || other.bits > 0
            }
        } else {
            other.bits < SIGN_BIT && self.bits < other.bits
        }
    }

    /// Whether this number is smaller than or equal to `other`.
    pub fn at_most(self, other: Measure) -> (r: bool)
        ensures
            r == self.le(other),
    {
        !self.is_nan() && !other.is_nan() && !other.below(self)
    }

    /// The integer that this number is, where it is one from 1 to
    /// [`MAX_WHOLE`].
    pub fn whole(self) -> (r: Option<u32>)
        ensures
            match r {
                Some(n) => 1 <= n <= MAX_WHOLE && forall|k: int| #[trigger]
                    self.is_whole(k) <==> k == n,
                None => forall|k: int| 1 <= k <= MAX_WHOLE ==> !#[trigger] self.is_whole(k),
            },
    {
        if self.bits < ONE_BITS || self.bits > MAX_WHOLE_BITS {
            proof {
                outside_is_not_whole(self);
            }
            return None;
        }
        let exponent: u64 = self.bits / EXPONENT_UNIT;
        let scaled: u64 = EXPONENT_UNIT + self.bits % EXPONENT_UNIT;
        let mut step: u64 = 1;
        let mut k: u64 = 0;
        proof {
            lemma2_to64();
            lemma2_to64_rest();
        }
        while k < 1075 - exponent
            invariant
                1023 <= exponent <= 1047,
                k <= 1075 - exponent,
                step == pow2(k as nat),
            decreases 1075 - exponent - k,
        {
            proof {
                lemma_pow2_unfold((k + 1) as nat);
                lemma2_to64_rest();
                if k + 1 < 52 {
                    lemma_pow2_strictly_increases((k + 1) as nat, 52);
                }
            }
            step = step * 2;
            k = k + 1;
        }
        proof {
            whole_where_divided(self, exponent as int, scaled as int, step as int);
        }
        if scaled % step == 0 {
            Some((scaled / step) as u32)
        } else {
            None
        }
    }
}

/// A number outside of 1 to [`MAX_WHOLE`] is no integer in there.
proof fn outside_is_not_whole(m: Measure)
    requires
        m.bits < ONE_BITS || m.bits > MAX_WHOLE_BITS,
    ensures
        forall|k: int| 1 <= k <= MAX_WHOLE ==> !#[trigger] m.is_whole(k),
{
    let one = magnitude_units(ONE_BITS as int);
    let top = magnitude_units(MAX_WHOLE_BITS as int);
    let x = magnitude_units(m.magnitude());
    lemma2_to64();
    lemma2_to64_rest();
    lemma_pow2_adds(24, 1022);
    assert(ONE_BITS as int / (EXPONENT_UNIT as int) == 1023);
    assert(ONE_BITS as int % (EXPONENT_UNIT as int) == 0);
    assert(MAX_WHOLE_BITS as int / (EXPONENT_UNIT as int) == 1047);
    assert(MAX_WHOLE_BITS as int % (EXPONENT_UNIT as int) == 0);
    magnitude_units_increase(0, ONE_BITS as int);
    assert(top == MAX_WHOLE * one) by (nonlinear_arith)
        requires
            one == EXPONENT_UNIT * pow2(1022),
            top == EXPONENT_UNIT * pow2(1046),
            pow2(1046) == MAX_WHOLE * pow2(1022),
    ;
    if m.magnitude() > 0 {
        magnitude_units_increase(0, m.magnitude());
    }
    if m.bits < ONE_BITS {
        magnitude_units_increase(m.bits as int, ONE_BITS as int);
    } else if m.bits < SIGN_BIT {
        magnitude_units_increase(MAX_WHOLE_BITS as int, m.bits as int);
    }
    assert forall|k: int| 1 <= k <= MAX_WHOLE implies !#[trigger] m.is_whole(k) by {
        assert(one <= k * one <= top) by (nonlinear_arith)
            requires
                1 <= k <= MAX_WHOLE,
                0 < one,
                top == MAX_WHOLE * one,
        ;
    }
}

/// A number from 1 to [`MAX_WHOLE`] is an integer exactly where what its bits
/// scale is a multiple of what one is scaled to.
proof fn whole_where_divided(m: Measure, exponent: int, scaled: int, step: int)
    requires
        ONE_BITS <= m.bits <= MAX_WHOLE_BITS,
        exponent == m.bits / EXPONENT_UNIT,
        scaled == EXPONENT_UNIT + m.bits % EXPONENT_UNIT,
        1023 <= exponent <= 1047,
        step == pow2((1075 - exponent) as nat),
    ensures
        step > 0,
        scaled % step != 0 ==> forall|k: int| !#[trigger] m.is_whole(k),
        scaled % step == 0 ==> forall|k: int| #[trigger] m.is_whole(k) <==> k == scaled / step,
        scaled % step == 0 ==> 1 <= scaled / step <= MAX_WHOLE,
{
    let one = (Measure { bits: ONE_BITS }).units();
    let low = pow2((exponent - 1) as nat) as int;
    lemma2_to64();
    lemma2_to64_rest();
    lemma_pow2_pos((exponent - 1) as nat);
    lemma_pow2_pos((1075 - exponent) as nat);
    lemma_pow2_adds(52, 1022);
    lemma_pow2_adds((exponent - 1) as nat, (1075 - exponent) as nat);
    assert(ONE_BITS as int / (EXPONENT_UNIT as int) == 1023);
    assert(ONE_BITS as int % (EXPONENT_UNIT as int) == 0);
    assert(one == low * step);
    assert(m.units() == scaled * low);
    assert forall|k: int| #[trigger] m.is_whole(k) <==> scaled == k * step by {
        assert((scaled * low == k * (low * step)) <==> scaled == k * step) by (nonlinear_arith)
            requires
                low > 0,
        ;
    }
    assert forall|k: int| #[trigger] m.is_whole(k) implies scaled % step == 0 && k == scaled
        / step by {
        vstd::arithmetic::div_mod::lemma_fundamental_div_mod_converse(scaled, step, k, 0);
    }
    vstd::arithmetic::div_mod::lemma_fundamental_div_mod(scaled, step);
    if scaled % step == 0 {
        let n = scaled / step;
        assert(scaled == n * step) by (nonlinear_arith)
            requires
                scaled == step * n + 0,
        ;
        if exponent < 1047 {
            if exponent < 1046 {
                lemma_pow2_strictly_increases(29, (1075 - exponent) as nat);
            }
            if exponent > 1023 {
                lemma_pow2_strictly_increases((1075 - exponent) as nat, 52);
            }
        }
        assert(1 <= n <= MAX_WHOLE) by (nonlinear_arith)
            requires
                scaled == n * step,
                0 < step <= 0x0010_0000_0000_0000,
                0x0010_0000_0000_0000 <= scaled,
                (step >= 0x2000_0000 && scaled < 0x0020_0000_0000_0000) || (step == 0x1000_0000
                    && scaled == 0x0010_0000_0000_0000),
        ;
    }
}

/// What the 63 bits below the sign stand for, in units of the smallest positive
/// double: a fraction of 52 bits, scaled by the exponent above it.
pub open spec fn magnitude_units(magnitude: int) -> int {
    let exponent = magnitude / (EXPONENT_UNIT as int);
    let fraction = magnitude % (EXPONENT_UNIT as int);
    if exponent == 0 {
        fraction
    } else {
        (EXPONENT_UNIT + fraction) * pow2((exponent - 1) as nat)
    }
}

/// A larger magnitude stands for a larger number.
proof fn magnitude_units_increase(a: int, b: int)
    requires
        0 <= a < b,
    ensures
        0 <= magnitude_units(a) < magnitude_units(b),
{
    let unit = EXPONENT_UNIT as int;
    let ea = a / unit;
    let eb = b / unit;
    let fa = a % unit;
    let fb = b % unit;
    vstd::arithmetic::div_mod::lemma_fundamental_div_mod(a, unit);
    vstd::arithmetic::div_mod::lemma_fundamental_div_mod(b, unit);
    vstd::arithmetic::div_mod::lemma_div_is_ordered(a, b, unit);
    if ea == eb {
        assert(fa < fb);
        if ea != 0 {
            let p = pow2((ea - 1) as nat) as int;
            lemma_pow2_pos((ea - 1) as nat);
            assert(0 <= (unit + fa) * p < (unit + fb) * p) by (nonlinear_arith)
                requires
                    0 < p,
                    0 <= fa < fb,
                    unit == 0x0010_0000_0000_0000,
            ;
        }
    } else {
        assert(ea < eb);
        let pb = pow2((eb - 1) as nat) as int;
        lemma_pow2_pos((eb - 1) as nat);
        if ea == 0 {
            assert((unit + fb) * pb >= unit) by (nonlinear_arith)
                requires
                    1 <= pb,
                    0 <= fb,
                    unit == 0x0010_0000_0000_0000,
            ;
        } else {
            let pa = pow2((ea - 1) as nat) as int;
            lemma_pow2_pos((ea - 1) as nat);
            lemma_pow2_unfold(ea as nat);
            if ea < eb - 1 {
                lemma_pow2_strictly_increases(ea as nat, (eb - 1) as nat);
            }
            assert(2 * pa <= pb);
            assert(0 <= (unit + fa) * pa < (unit + fb) * pb) by (nonlinear_arith)
                requires
                    0 < pa,
                    2 * pa <= pb,
                    0 <= fa < unit,
                    0 <= fb,
                    unit == 0x0010_0000_0000_0000,
            ;
        }
    }
}

/// The order of two finite measures is the order of the numbers they stand for.
pub proof fn order_is_numeric(a: Measure, b: Measure)
    requires
        a.finite(),
        b.finite(),
    ensures
        a.lt(b) <==> a.units() < b.units(),
        a.le(b) <==> a.units() <= b.units(),
{
    let x = a.magnitude();
    let y = b.magnitude();
    assert(magnitude_units(0) == 0);
    if x < y {
        magnitude_units_increase(x, y);
    }
    if y < x {
        magnitude_units_increase(y, x);
    }
    if x > 0 {
        magnitude_units_increase(0, x);
    }
    if y > 0 {
        magnitude_units_increase(0, y);
    }
}

/// Of two numbers one is below the other or each is at most the other; nothing
/// is below itself; and below is transitive.
pub proof fn below_orders_numbers(a: Measure, b: Measure, c: Measure)
    ensures
        !a.lt(a),
        a.lt(b) && b.lt(c) ==> a.lt(c),
        a.lt(b) && !c.nan() ==> a.lt(c) || c.lt(b),
        !a.nan() && !b.nan() ==> (a.le(b) <==> !b.lt(a)),
{
}

/// The two infinities are numbers: one is above every finite number, the other
/// below. What lies past them is none, and takes no part in the order. Both
/// zeros are the same number.
pub proof fn infinities_bound_the_numbers(a: Measure, b: Measure)
    ensures
        a.nan() <==> (0x7FF0_0000_0000_0000 < a.bits < 0x8000_0000_0000_0000 || a.bits
            > 0xFFF0_0000_0000_0000),
        a.finite() ==> a.lt(Measure { bits: 0x7FF0_0000_0000_0000 }),
        a.finite() ==> (Measure { bits: 0xFFF0_0000_0000_0000 }).lt(a),
        a.finite() <==> !a.nan() && a.bits != 0x7FF0_0000_0000_0000 && a.bits
            != 0xFFF0_0000_0000_0000,
        a.nan() || b.nan() ==> !a.lt(b) && !a.le(b),
        (Measure { bits: 0 }).le(Measure { bits: 0x8000_0000_0000_0000 }),
        (Measure { bits: 0x8000_0000_0000_0000 }).le(Measure { bits: 0 }),
{
}

} // verus!
