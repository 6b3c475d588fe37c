//! Binary64 numbers (IEEE 754 double precision) held as bit patterns, with correctly
//! rounded arithmetic.
use vstd::prelude::*;
use vstd::arithmetic::power2::{
    lemma2_to64, lemma2_to64_rest, lemma_pow2_adds, lemma_pow2_pos, lemma_pow2_strictly_increases,
    pow2,
};
use crate::rounding::{
    bit_length, bracketed, lemma_nearest_exact, lemma_nearest_exists, lemma_nearest_is,
    lemma_nearest_ordered, lemma_pattern, lemma_pow2_127, lemma_scale_increases,
    lemma_scale_nonnegative, nearest, round_bracketed, scale, step, two_to, HIDDEN, INFINITY,
};

verus! {

/// The sign bit.
pub const SIGN: u64 = 0x8000_0000_0000_0000;

/// Binary exponent of one: the number 1 is this power of two times the smallest subnormal.
pub const UNIT: u32 = 1074;

/// A binary64 number.
#[derive(Clone, Copy, Debug, PartialEq, Eq, Structural)]
pub struct Double {
    /// Sign bit, eleven exponent bits, fifty-two fraction bits.
    pub bits: u64,
}

/// The number with the given sign whose magnitude is nearest to `num / den`.
pub open spec fn rounded(negative: bool, num: int, den: int) -> Double {
    signed(negative, nearest(num, den))
}

/// The number made of a sign and a magnitude pattern.
pub open spec fn signed(negative: bool, pattern: int) -> Double {
    Double { bits: (if negative { SIGN + pattern } else { pattern }) as u64 }
}

/// Positive zero.
pub open spec fn zero() -> Double {
    Double { bits: 0 }
}

/// The number that stands for an undefined result.
pub open spec fn undefined() -> Double {
    Double { bits: 0x7ff8_0000_0000_0000 }
}

pub open spec fn magnitude(x: int) -> int {
    if x < 0 {
        -x
    } else {
        x
    }
}

impl Double {
    /// The sign bit is set.
    pub open spec fn negative(self) -> bool {
        self.bits >= SIGN
    }

    /// The bit pattern without its sign.
    pub open spec fn pattern(self) -> int {
        if self.negative() {
            self.bits - SIGN
        } else {
            self.bits as int
        }
    }

    /// Not a number.
    pub open spec fn undefined(self) -> bool {
        self.pattern() > INFINITY
    }

    pub open spec fn infinite(self) -> bool {
        self.pattern() == INFINITY
    }

    pub open spec fn finite(self) -> bool {
        self.pattern() < INFINITY
    }

    /// The value in units of the smallest subnormal; an infinity stands beyond every finite
    /// value.
    pub open spec fn units(self) -> int {
        if self.negative() {
            -scale(self.pattern())
        } else {
            scale(self.pattern())
        }
    }

    /// `self > other`.
    pub open spec fn exceeds(self, other: Double) -> bool {
        !self.undefined() && !other.undefined() && self.units() > other.units()
    }

    /// `self == other` as numbers: the two zeros are equal, and nothing equals an undefined
    /// number.
    pub open spec fn equals(self, other: Double) -> bool {
        !self.undefined() && !other.undefined() && self.units() == other.units()
    }

    /// The same number with the other sign.
    pub open spec fn negated(self) -> Double {
        signed(!self.negative(), self.pattern())
    }

    /// `self + other`, correctly rounded.
    pub open spec fn sum(self, other: Double) -> Double {
        if self.undefined() || other.undefined() {
            undefined()
        } else if self.infinite() && other.infinite() && self.negative() != other.negative() {
            undefined()
        } else if self.infinite() {
            self
        } else if other.infinite() {
            other
        } else {
            let x = self.units() + other.units();
            if x == 0 {
                signed(self.negative() && other.negative(), 0)
            } else {
                rounded(x < 0, magnitude(x), 1)
            }
        }
    }

    /// `self - other`, correctly rounded.
    pub open spec fn difference(self, other: Double) -> Double {
        self.sum(other.negated())
    }

    /// `self * other`, correctly rounded.
    pub open spec fn product(self, other: Double) -> Double {
        let negative = self.negative() != other.negative();
        if self.undefined() || other.undefined() {
            undefined()
        } else if self.infinite() || other.infinite() {
            if self.units() == 0 || other.units() == 0 {
                undefined()
            } else {
                signed(negative, INFINITY as int)
            }
        } else {
            rounded(negative, scale(self.pattern()) * scale(other.pattern()), pow2(UNIT as nat) as int)
        }
    }

    /// `self / other`, correctly rounded.
    pub open spec fn quotient(self, other: Double) -> Double {
        let negative = self.negative() != other.negative();
        if self.undefined() || other.undefined() {
            undefined()
        } else if self.infinite() {
            if other.infinite() {
                undefined()
            } else {
                signed(negative, INFINITY as int)
            }
        } else if other.infinite() {
            signed(negative, 0)
        } else if other.units() == 0 {
            if self.units() == 0 {
                undefined()
            } else {
                signed(negative, INFINITY as int)
            }
        } else {
            rounded(negative, scale(self.pattern()) * pow2(UNIT as nat), scale(other.pattern()))
        }
    }

    /// The number nearest to a count.
    pub open spec fn of_count(n: nat) -> Double {
        rounded(false, (n * pow2(UNIT as nat)) as int, 1)
    }

    /// The number nearest to the fraction `num / den`: what a decimal literal stands for.
    pub open spec fn of_fraction(num: int, den: int) -> Double {
        rounded(false, num * pow2(UNIT as nat), den)
    }

    /// The larger of `self` and zero; zero for an undefined number.
    pub open spec fn floored(self) -> Double {
        if self.exceeds(zero()) {
            self
        } else {
            zero()
        }
    }

    /// Splits off the sign.
    pub fn split(self) -> (r: (bool, u64))
        ensures
            r.0 == self.negative(),
            r.1 == self.pattern(),
            r.1 < SIGN,
    {
        if self.bits >= SIGN {
            (true, self.bits - SIGN)
        } else {
            (false, self.bits)
        }
    }

    /// Joins a sign and a magnitude pattern.
    fn join(negative: bool, pattern: u64) -> (r: Double)
        requires
            pattern < SIGN,
        ensures
            r == signed(negative, pattern as int),
            r.negative() == negative,
            r.pattern() == pattern,
    {
        if negative {
            Double { bits: SIGN + pattern }
        } else {
            Double { bits: pattern }
        }
    }

    /// Whether this is not a number.
    pub fn is_undefined(self) -> (r: bool)
        ensures
            r == self.undefined(),
    {
        self.split().1 > INFINITY
    }

    /// `self > other`.
    pub fn gt(self, other: Double) -> (r: bool)
        ensures
            r == self.exceeds(other),
    {
        let (na, a): (bool, u64) = self.split();
        let (nb, b): (bool, u64) = other.split();
        if a > INFINITY || b > INFINITY {
            return false;
        }
        proof {
            lemma_scale_nonnegative(a as int);
            lemma_scale_nonnegative(b as int);
            if a < b {
                lemma_scale_increases(a as int, b as int);
            }
            if b < a {
                lemma_scale_increases(b as int, a as int);
            }
            if a > 0 {
                lemma_scale_increases(0, a as int);
            }
            if b > 0 {
                lemma_scale_increases(0, b as int);
            }
        }
        if na && nb {
            a < b
        } else if na {
            false
        } else if nb {
            a > 0 || b > 0
        } else {
            a > b
        }
    }

    /// `self < other`.
    pub fn lt(self, other: Double) -> (r: bool)
        ensures
            r == other.exceeds(self),
    {
        other.gt(self)
    }

    /// `self == other` as numbers.
    pub fn same_value(self, other: Double) -> (r: bool)
        ensures
            r == self.equals(other),
    {
        !self.is_undefined() && !other.is_undefined() && !self.gt(other) && !other.gt(self)
    }

    /// `-self`.
    pub fn negate(self) -> (r: Double)
        ensures
            r == self.negated(),
    {
        let (n, p): (bool, u64) = self.split();
        Double::join(!n, p)
    }

    /// The larger of `self` and zero.
    pub fn floor_at_zero(self) -> (r: Double)
        ensures
            r == self.floored(),
    {
        if self.gt(Double { bits: 0 }) {
            self
        } else {
            Double { bits: 0 }
        }
    }

    /// `self + other`.
    pub fn plus(self, other: Double) -> (r: Double)
        ensures
            r == self.sum(other),
    {
        let (na, a): (bool, u64) = self.split();
        let (nb, b): (bool, u64) = other.split();
        if a > INFINITY || b > INFINITY || (a == INFINITY && b == INFINITY && na != nb) {
            return Double { bits: 0x7ff8_0000_0000_0000 };
        }
        if a == INFINITY {
            return self;
        }
        if b == INFINITY {
            return other;
        }
        let (ma, ta): (u64, u32) = significand(a);
        let (mb, tb): (u64, u32) = significand(b);
        if ta >= tb {
            round_sum(na, ma, ta, nb, mb, tb)
        } else {
            round_sum(nb, mb, tb, na, ma, ta)
        }
    }

    /// `self - other`.
    pub fn minus(self, other: Double) -> (r: Double)
        ensures
            r == self.difference(other),
    {
        self.plus(other.negate())
    }

    /// `self * other`.
    pub fn times(self, other: Double) -> (r: Double)
        ensures
            r == self.product(other),
    {
        let (na, a): (bool, u64) = self.split();
        let (nb, b): (bool, u64) = other.split();
        if a > INFINITY || b > INFINITY {
            return Double { bits: 0x7ff8_0000_0000_0000 };
        }
        proof {
            lemma_zero_units(a as int);
            lemma_zero_units(b as int);
        }
        if a == INFINITY || b == INFINITY {
            if a == 0 || b == 0 {
                return Double { bits: 0x7ff8_0000_0000_0000 };
            }
            return Double::join(na != nb, INFINITY);
        }
        let (ma, ta): (u64, u32) = significand(a);
        let (mb, tb): (u64, u32) = significand(b);
        let k: i32 = ta as i32 + tb as i32 - UNIT as i32;
        let ghost num = scale(a as int) * scale(b as int);
        let ghost den = pow2(UNIT as nat) as int;
        assert(ma as u128 * mb as u128 <= 0x20_0000_0000_0000 * 0x20_0000_0000_0000) by (nonlinear_arith)
            requires
                ma < 0x20_0000_0000_0000,
                mb < 0x20_0000_0000_0000,
        ;
        let n: u128 = ma as u128 * mb as u128;
        proof {
            lemma_product_bracket(ma as int, ta as nat, mb as int, tb as nat, UNIT as nat);
            lemma_pow2_pos(UNIT as nat);
        }
        let p: u64 = round_bracketed(n, k, true, Ghost(num), Ghost(den));
        proof {
            lemma_nearest_is(num, den, p as int);
        }
        Double::join(na != nb, p)
    }

    /// `self / other`.
    pub fn over(self, other: Double) -> (r: Double)
        ensures
            r == self.quotient(other),
    {
        let (na, a): (bool, u64) = self.split();
        let (nb, b): (bool, u64) = other.split();
        if a > INFINITY || b > INFINITY || (a == INFINITY && b == INFINITY) {
            return Double { bits: 0x7ff8_0000_0000_0000 };
        }
        if a == INFINITY {
            return Double::join(na != nb, INFINITY);
        }
        if b == INFINITY {
            return Double::join(na != nb, 0);
        }
        proof {
            lemma_zero_units(a as int);
            lemma_zero_units(b as int);
        }
        if b == 0 {
            if a == 0 {
                return Double { bits: 0x7ff8_0000_0000_0000 };
            }
            return Double::join(na != nb, INFINITY);
        }
        let ghost num = scale(a as int) * pow2(UNIT as nat);
        let ghost den = scale(b as int);
        if a == 0 {
            proof {
                assert(num == 0) by (nonlinear_arith)
                    requires
                        num == scale(a as int) * pow2(UNIT as nat),
                        scale(a as int) == 0,
                ;
                assert(den * scale(0) == 0) by (nonlinear_arith)
                    requires
                        scale(0) == 0,
                ;
                lemma_nearest_exact(den, 0);
            }
            return Double::join(na != nb, 0);
        }
        let (ma, ta): (u64, u32) = significand(a);
        let (mb, tb): (u64, u32) = significand(b);
        assert(ma > 0 && mb > 0) by {
            let pa = pow2(ta as nat) as int;
            let pb = pow2(tb as nat) as int;
            assert(0 * pa == 0 && 0 * pb == 0) by (nonlinear_arith);
        }
        Double::join(na != nb, round_quotient(ma, ta, mb, tb))
    }

    /// The number nearest to a fraction.
    pub fn from_fraction(num: u64, den: u64) -> (r: Double)
        requires
            0 < num < 0x20_0000_0000_0000,
            0 < den < 0x20_0000_0000_0000,
        ensures
            r == Double::of_fraction(num as int, den as int),
            r.finite() || r.infinite(),
    {
        proof {
            lemma2_to64();
            assert(num * 1 == num && den * 1 == den);
        }
        Double::join(false, round_quotient(num, 0, den, 0))
    }

    /// The number nearest to a count.
    pub fn from_count(n: u64) -> (r: Double)
        ensures
            r == Double::of_count(n as nat),
    {
        let ghost num = (n * pow2(UNIT as nat)) as int;
        proof {
            lemma_whole_bracket(num, n as int, UNIT as nat, true);
        }
        let p: u64 = round_bracketed(n as u128, UNIT as i32, true, Ghost(num), Ghost(1int));
        proof {
            lemma_nearest_is(num, 1, p as int);
        }
        Double::join(false, p)
    }
}

/// Only the zero pattern has magnitude zero.
proof fn lemma_zero_units(b: int)
    requires
        0 <= b,
    ensures
        scale(b) == 0 <==> b == 0,
        scale(b) >= 0,
{
    if b > 0 {
        lemma_scale_increases(0, b);
    }
}

/// A whole number of steps of size `2^k`, or one between two of them.
proof fn lemma_whole_bracket(num: int, n: int, k: nat, exact: bool)
    requires
        n * pow2(k) <= num < (n + 1) * pow2(k) || (exact && num == n * pow2(k)),
        exact <==> num == n * pow2(k),
    ensures
        bracketed(num, 1, n, k as int, exact),
{
    lemma2_to64();
    lemma_pow2_pos(k);
    assert(num * 1 == num) by (nonlinear_arith);
    let p = pow2(k) as int;
    assert((n + 1) * p == n * p + p) by (nonlinear_arith);
}

/// Significand and step exponent of a finite pattern.
pub fn significand(pattern: u64) -> (r: (u64, u32))
    requires
        pattern < INFINITY,
    ensures
        scale(pattern as int) == r.0 * pow2(r.1 as nat),
        r.0 < 0x20_0000_0000_0000,
        r.1 > 0 ==> r.0 >= HIDDEN,
        r.1 <= 2045,
{
    proof {
        lemma2_to64();
        assert(pattern * 1 == pattern);
    }
    if pattern < HIDDEN {
        (pattern, 0)
    } else {
        assert(step(pattern as int) == pattern / HIDDEN - 1);
        (HIDDEN + pattern % HIDDEN, (pattern / HIDDEN - 1) as u32)
    }
}

/// Rounded sum of two signed magnitudes, the first with the larger step.
fn round_sum(na: bool, ma: u64, ta: u32, nb: bool, mb: u64, tb: u32) -> (r: Double)
    requires
        ma < 0x20_0000_0000_0000,
        mb < 0x20_0000_0000_0000,
        tb <= ta <= 2045,
        ta > 0 ==> ma >= HIDDEN,
    ensures
        ({
            let a = ma * pow2(ta as nat);
            let b = mb * pow2(tb as nat);
            let x = (if na { -a } else { a }) + (if nb { -b } else { b });
            r == if x == 0 {
                signed(na && nb, 0)
            } else {
                rounded(x < 0, magnitude(x), 1)
            }
        }),
{
    let ghost a = ma * pow2(ta as nat);
    let ghost b = mb * pow2(tb as nat);
    let ghost x = (if na { -a } else { a }) + (if nb { -b } else { b });
    let d: u32 = ta - tb;
    proof {
        lemma_pow2_127();
        lemma_pow2_pos(ta as nat);
        lemma_pow2_pos(tb as nat);
    }
    if d <= 64 {
        let shift: u128 = two_to(d);
        let ghost pb = pow2(tb as nat) as int;
        proof {
            lemma_pow2_adds(tb as nat, d as nat);
            if d < 64 {
                lemma_pow2_strictly_increases(d as nat, 64);
            }
            assert(ma * shift <= 0x20_0000_0000_0000 * 0x1_0000_0000_0000_0000) by (nonlinear_arith)
                requires
                    ma < 0x20_0000_0000_0000,
                    shift <= 0x1_0000_0000_0000_0000,
            ;
            let s = shift as int;
            assert(a == (ma * s) * pb) by (nonlinear_arith)
                requires
                    a == ma * pow2(ta as nat),
                    pow2(ta as nat) == pb * s,
            ;
        }
        let wide: u128 = ma as u128 * shift;
        let small: u128 = mb as u128;
        let n: u128;
        let negative: bool;
        if na == nb {
            n = wide + small;
            negative = na;
        } else if wide >= small {
            n = wide - small;
            negative = na;
        } else {
            n = small - wide;
            negative = nb;
        }
        proof {
            let w = wide as int;
            let m = small as int;
            assert((w + m) * pb == w * pb + m * pb && (w - m) * pb == w * pb - m * pb && (m - w) * pb
                == m * pb - w * pb) by (nonlinear_arith);
            assert(magnitude(x) == n * pb) by {
                assert(n * pb >= 0) by (nonlinear_arith)
                    requires
                        n >= 0,
                        pb > 0,
                ;
            }
            assert(n * pb > 0 <==> n > 0) by (nonlinear_arith)
                requires
                    pb > 0,
                    n >= 0,
            ;
            assert(w * pb >= 0 && m * pb >= 0) by (nonlinear_arith)
                requires
                    w >= 0,
                    m >= 0,
                    pb > 0,
            ;
        }
        if n == 0 {
            return Double::join(na && nb, 0);
        }
        proof {
            lemma_whole_bracket(magnitude(x), n as int, tb as nat, true);
        }
        let p: u64 = round_bracketed(n, tb as i32, true, Ghost(magnitude(x)), Ghost(1int));
        proof {
            lemma_nearest_is(magnitude(x), 1, p as int);
        }
        Double::join(negative, p)
    } else {
        let ghost k = (ta - 12) as nat;
        let ghost pk = pow2(k) as int;
        let wide: u128 = ma as u128 * 4096;
        proof {
            lemma2_to64();
            lemma_pow2_adds(12, k);
            lemma_pow2_pos(k);
            // the small term is less than one step of size 2^k
            lemma_pow2_adds(53, tb as nat);
            if 53 + tb < k {
                lemma_pow2_strictly_increases((53 + tb) as nat, k);
            }
            let pb = pow2(tb as nat) as int;
            assert(b < pow2(53) * pb) by (nonlinear_arith)
                requires
                    b == mb * pb,
                    mb < pow2(53),
                    pb > 0,
            ;
            assert(b < pk);
            assert((b == 0) == (mb == 0) && b >= 0) by (nonlinear_arith)
                requires
                    b == mb * pb,
                    pb > 0,
                    mb >= 0,
            ;
            let w = wide as int;
            let q = pow2(12) as int;
            assert(ma * (q * pk) == (ma * q) * pk) by (nonlinear_arith);
            assert(a == w * pk);
            assert((w + 1) * pk == w * pk + pk && (w - 1) * pk == w * pk - pk && (w - 1 + 1) * pk == w * pk)
                by (nonlinear_arith);
            assert(w * pk >= pk) by (nonlinear_arith)
                requires
                    w >= 1,
                    pk > 0,
            ;
        }
        let n: u128 = if mb == 0 || na == nb {
            wide
        } else {
            wide - 1
        };
        proof {
            lemma_whole_bracket(magnitude(x), n as int, k, mb == 0);
        }
        let p: u64 = round_bracketed(n, ta as i32 - 12, mb == 0, Ghost(magnitude(x)), Ghost(1int));
        proof {
            lemma_nearest_is(magnitude(x), 1, p as int);
        }
        Double::join(na, p)
    }
}

/// Pattern nearest to the quotient of two magnitudes.
fn round_quotient(ma: u64, ta: u32, mb: u64, tb: u32) -> (p: u64)
    requires
        0 < ma < 0x20_0000_0000_0000,
        0 < mb < 0x20_0000_0000_0000,
        ta <= 2045,
        tb <= 2045,
    ensures
        p <= INFINITY,
        p == nearest((ma * pow2(ta as nat)) * pow2(UNIT as nat), mb * pow2(tb as nat)),
{
    let ghost num = (ma * pow2(ta as nat)) * pow2(UNIT as nat);
    let ghost den = mb * pow2(tb as nat);
    proof {
        lemma_pow2_pos(tb as nat);
        assert(den > 0) by (nonlinear_arith)
            requires
                den == mb * pow2(tb as nat),
                mb > 0,
                pow2(tb as nat) > 0,
        ;
    }
    let len: u32 = bit_length(ma as u128);
    proof {
        lemma_pow2_127();
        if len > 53 {
            lemma_pow2_strictly_increases(53, len as nat);
            if len - 1 > 53 {
                lemma_pow2_strictly_increases(53, (len - 1) as nat);
            }
        }
    }
    // The dividend is brought to 117 binary digits.
    let lift: u32 = 117 - len;
    let shift: u128 = two_to(lift);
    proof {
        lemma_pow2_adds(len as nat, lift as nat);
        lemma_pow2_adds((len - 1) as nat, lift as nat);
        lemma_pow2_strictly_increases(117, 127);
        lemma_pow2_adds(53, 63);
        let p = shift as int;
        assert(ma * p < pow2(len as nat) * p) by (nonlinear_arith)
            requires
                ma < pow2(len as nat),
                p > 0,
        ;
        assert(pow2((len - 1) as nat) * p <= ma * p) by (nonlinear_arith)
            requires
                pow2((len - 1) as nat) <= ma,
                p > 0,
        ;
    }
    let wide: u128 = ma as u128 * shift;
    let n: u128 = wide / (mb as u128);
    let rest: u128 = wide % (mb as u128);
    let k: i32 = ta as i32 + UNIT as i32 - tb as i32 - lift as i32;
    proof {
        vstd::arithmetic::div_mod::lemma_fundamental_div_mod(wide as int, mb as int);
        assert(n >= pow2(63)) by (nonlinear_arith)
            requires
                wide >= pow2(53) * pow2(63),
                wide == mb * n + rest,
                rest < mb,
                mb < pow2(53),
                mb > 0,
                n >= 0,
        ;
        lemma2_to64_rest();
        lemma_quotient_bracket(
            ma as int,
            ta as nat,
            mb as int,
            tb as nat,
            UNIT as nat,
            lift as nat,
            n as int,
            rest as int,
        );
    }
    let p: u64 = round_bracketed(n, k, rest == 0, Ghost(num), Ghost(den));
    proof {
        lemma_nearest_is(num, den, p as int);
    }
    p
}

proof fn lemma_product_bracket(ma: int, ta: nat, mb: int, tb: nat, unit: nat)
    requires
        ma >= 0,
        mb >= 0,
    ensures
        bracketed((ma * pow2(ta)) * (mb * pow2(tb)), pow2(unit) as int, ma * mb, ta + tb - unit, true),
{
    lemma2_to64();
    lemma_pow2_adds(ta, tb);
    let k = ta + tb - unit;
    let pa = pow2(ta) as int;
    let pb = pow2(tb) as int;
    let pu = pow2(unit) as int;
    let n = ma * mb;
    let num = (ma * pa) * (mb * pb);
    assert(num == n * (pa * pb)) by (nonlinear_arith)
        requires
            num == (ma * pa) * (mb * pb),
            n == ma * mb,
    ;
    lemma_pow2_pos(unit);
    let y = num * pow2(if k < 0 { (-k) as nat } else { 0 });
    let d = pu * pow2(if k > 0 { k as nat } else { 0 });
    if k >= 0 {
        lemma_pow2_adds(unit, k as nat);
        assert(num * 1 == num) by (nonlinear_arith);
        assert(d == pa * pb);
        lemma_pow2_pos(k as nat);
        assert(d > 0) by (nonlinear_arith)
            requires
                d == pu * pow2(k as nat),
                pu > 0,
                pow2(k as nat) > 0,
        ;
    } else {
        let u = (-k) as nat;
        lemma_pow2_adds((ta + tb) as nat, u);
        let q = pow2(u) as int;
        assert(pu == (pa * pb) * q);
        assert((n * (pa * pb)) * q == n * ((pa * pb) * q)) by (nonlinear_arith);
        assert(d == pu) by {
            assert(pu * 1 == pu) by (nonlinear_arith);
        }
    }
    assert((n + 1) * d == n * d + d) by (nonlinear_arith);
}

proof fn lemma_quotient_bracket(
    ma: int,
    ta: nat,
    mb: int,
    tb: nat,
    unit: nat,
    lift: nat,
    n: int,
    rest: int,
)
    requires
        ma >= 0,
        mb > 0,
        ma * pow2(lift) == mb * n + rest,
        0 <= rest < mb,
        n >= 0,
    ensures
        bracketed(
            (ma * pow2(ta)) * pow2(unit),
            mb * pow2(tb),
            n,
            ta + unit - tb - lift,
            rest == 0,
        ),
{
    lemma2_to64();
    let k = ta + unit - tb - lift;
    let pa = pow2(ta) as int;
    let pu = pow2(unit) as int;
    let pb = pow2(tb) as int;
    let pl = pow2(lift) as int;
    lemma_pow2_pos(tb);
    lemma_pow2_pos(lift);
    lemma_pow2_pos(ta);
    lemma_pow2_pos(unit);
    lemma_pow2_adds(ta, unit);
    let num = (ma * pa) * pu;
    let den = mb * pb;
    let up = if k < 0 { (-k) as nat } else { 0 };
    let down = if k > 0 { k as nat } else { 0 };
    let pn = pow2(up) as int;
    let pd = pow2(down) as int;
    lemma_pow2_pos(up);
    lemma_pow2_pos(down);
    // both sides of the scaling are the same power of two
    assert(pa * pu * pn == pb * pl * pd) by {
        lemma_pow2_adds((ta + unit) as nat, up);
        lemma_pow2_adds(tb, lift);
        lemma_pow2_adds((tb + lift) as nat, down);
        assert(ta + unit + up == tb + lift + down);
    }
    let y = num * pn;
    let d = den * pd;
    // y * pl == (ma * pl) * (pb * pl * pd) ; d * pl == mb * (pb * pl * pd)
    let c = pb * pl * pd;
    assert(y == ma * c) by (nonlinear_arith)
        requires
            y == ((ma * pa) * pu) * pn,
            c == pa * pu * pn,
    ;
    assert(d * pl == mb * c) by (nonlinear_arith)
        requires
            d == (mb * pb) * pd,
            c == pb * pl * pd,
    ;
    assert(c > 0) by (nonlinear_arith)
        requires
            c == pb * pl * pd,
            pb > 0,
            pl > 0,
            pd > 0,
    ;
    assert(y * pl == (mb * n + rest) * c) by (nonlinear_arith)
        requires
            y == ma * c,
            ma * pl == mb * n + rest,
    ;
    assert((n * d) * pl == n * (mb * c)) by (nonlinear_arith)
        requires
            d * pl == mb * c,
    ;
    assert(((n + 1) * d) * pl == n * (mb * c) + mb * c) by (nonlinear_arith)
        requires
            d * pl == mb * c,
    ;
    assert((mb * n + rest) * c == n * (mb * c) + rest * c) by (nonlinear_arith);
    assert(0 <= rest * c < mb * c) by (nonlinear_arith)
        requires
            0 <= rest < mb,
            c > 0,
    ;
    assert(rest * c == 0 <==> rest == 0) by (nonlinear_arith)
        requires
            rest >= 0,
            c > 0,
    ;
    assert(n * d <= y) by (nonlinear_arith)
        requires
            (n * d) * pl <= y * pl,
            pl > 0,
    ;
    assert(y < (n + 1) * d) by (nonlinear_arith)
        requires
            y * pl < ((n + 1) * d) * pl,
            pl > 0,
    ;
    assert(y == n * d <==> y * pl == (n * d) * pl) by (nonlinear_arith)
        requires
            pl > 0,
    ;
}

/// The value nearest to `num / den`, in units of the smallest subnormal.
pub open spec fn round_units(num: int, den: int) -> int {
    if num < 0 {
        -scale(nearest(-num, den))
    } else {
        scale(nearest(num, den))
    }
}

/// A number made of a sign and a pattern has that sign and that pattern.
pub proof fn lemma_signed(negative: bool, pattern: int)
    requires
        0 <= pattern < SIGN,
    ensures
        signed(negative, pattern).negative() == negative,
        signed(negative, pattern).pattern() == pattern,
{
}

/// Rounding keeps order.
pub proof fn lemma_round_ordered(n1: int, d1: int, n2: int, d2: int)
    requires
        d1 > 0,
        d2 > 0,
        n1 * d2 <= n2 * d1,
    ensures
        round_units(n1, d1) <= round_units(n2, d2),
{
    lemma_nearest_exists(magnitude(n1), d1);
    lemma_nearest_exists(magnitude(n2), d2);
    let b1 = nearest(magnitude(n1), d1);
    let b2 = nearest(magnitude(n2), d2);
    lemma_scale_nonnegative(b1);
    lemma_scale_nonnegative(b2);
    if n1 >= 0 && n2 >= 0 {
        lemma_nearest_ordered(n1, d1, b1, n2, d2, b2);
        if b1 < b2 {
            lemma_scale_increases(b1, b2);
        }
    } else if n1 < 0 && n2 < 0 {
        assert((-n2) * d1 <= (-n1) * d2) by (nonlinear_arith)
            requires
                n1 * d2 <= n2 * d1,
        ;
        lemma_nearest_ordered(-n2, d2, b2, -n1, d1, b1);
        if b2 < b1 {
            lemma_scale_increases(b2, b1);
        }
    } else if n1 >= 0 {
        assert(n1 * d2 >= 0 && n2 * d1 < 0) by (nonlinear_arith)
            requires
                n1 >= 0,
                n2 < 0,
                d1 > 0,
                d2 > 0,
        ;
    }
}

/// Rounding leaves every representable value as it is.
pub proof fn lemma_round_exact(x: Double, den: int)
    requires
        !x.undefined(),
        den > 0,
    ensures
        round_units(x.units() * den, den) == x.units(),
{
    let b = x.pattern();
    let s = scale(b);
    lemma_zero_units(b);
    lemma_nearest_exact(den, b);
    assert(s * den == den * s) by (nonlinear_arith);
    if x.negative() {
        assert((-s) * den == -(den * s)) by (nonlinear_arith);
        assert(den * s > 0 <==> s > 0) by (nonlinear_arith)
            requires
                den > 0,
                s >= 0,
        ;
        if s == 0 {
            assert(den * s == 0) by (nonlinear_arith)
                requires
                    s == 0,
            ;
            assert(s * den == 0);
        }
    } else {
        assert(den * s >= 0) by (nonlinear_arith)
            requires
                den > 0,
                s >= 0,
        ;
    }
}

/// Value of a sum of finite numbers.
pub proof fn lemma_sum_units(a: Double, b: Double)
    requires
        a.finite(),
        b.finite(),
    ensures
        !a.sum(b).undefined(),
        a.sum(b).units() == round_units(a.units() + b.units(), 1),
{
    let x = a.units() + b.units();
    lemma_nearest_exists(magnitude(x), 1);
    if x == 0 {
        lemma_nearest_exact(1, 0);
        assert(1 * scale(0) == 0);
    }
}

/// Value of a difference of finite numbers.
pub proof fn lemma_difference_units(a: Double, b: Double)
    requires
        a.finite(),
        b.finite(),
    ensures
        !a.difference(b).undefined(),
        a.difference(b).units() == round_units(a.units() - b.units(), 1),
{
    lemma_sum_units(a, b.negated());
}

/// Value of a product of finite numbers that are not negative.
pub proof fn lemma_product_units(a: Double, b: Double)
    requires
        a.finite(),
        b.finite(),
        a.units() >= 0,
        b.units() >= 0,
    ensures
        !a.product(b).undefined(),
        a.product(b).units() == round_units(a.units() * b.units(), pow2(UNIT as nat) as int),
{
    lemma_zero_units(a.pattern());
    lemma_zero_units(b.pattern());
    let num = scale(a.pattern()) * scale(b.pattern());
    let den = pow2(UNIT as nat) as int;
    lemma_pow2_pos(UNIT as nat);
    assert(num >= 0) by (nonlinear_arith)
        requires
            num == scale(a.pattern()) * scale(b.pattern()),
            scale(a.pattern()) >= 0,
            scale(b.pattern()) >= 0,
    ;
    lemma_nearest_exists(num, den);
    lemma_signed(a.negative() != b.negative(), nearest(num, den));
    if a.negative() || b.negative() {
        assert(num == 0) by (nonlinear_arith)
            requires
                num == scale(a.pattern()) * scale(b.pattern()),
                scale(a.pattern()) == 0 || scale(b.pattern()) == 0,
        ;
        lemma_nearest_exact(den, 0);
        assert(den * scale(0) == 0) by (nonlinear_arith)
            requires
                scale(0) == 0,
        ;
    }
}

/// Value of a quotient of finite numbers, the dividend not negative and the divisor positive.
pub proof fn lemma_quotient_units(a: Double, b: Double)
    requires
        a.finite(),
        b.finite(),
        a.units() >= 0,
        b.units() > 0,
    ensures
        !a.quotient(b).undefined(),
        a.quotient(b).units() == round_units(a.units() * pow2(UNIT as nat), b.units()),
{
    lemma_zero_units(a.pattern());
    lemma_zero_units(b.pattern());
    let p = pow2(UNIT as nat) as int;
    let num = scale(a.pattern()) * p;
    let den = scale(b.pattern());
    lemma_pow2_pos(UNIT as nat);
    assert(num >= 0) by (nonlinear_arith)
        requires
            num == scale(a.pattern()) * p,
            scale(a.pattern()) >= 0,
            p > 0,
    ;
    lemma_nearest_exists(num, den);
    lemma_signed(a.negative() != b.negative(), nearest(num, den));
    if a.negative() {
        assert(num == 0) by (nonlinear_arith)
            requires
                num == scale(a.pattern()) * p,
                scale(a.pattern()) == 0,
        ;
        lemma_nearest_exact(den, 0);
        assert(den * scale(0) == 0) by (nonlinear_arith)
            requires
                scale(0) == 0,
        ;
    }
}

/// Adding a number that is not negative never gives less.
pub proof fn lemma_sum_grows(a: Double, b: Double)
    requires
        a.finite(),
        b.finite(),
        b.units() >= 0,
    ensures
        !a.sum(b).undefined(),
        a.sum(b).units() >= a.units(),
{
    lemma_sum_units(a, b);
    lemma_round_exact(a, 1);
    lemma_round_ordered(a.units() * 1, 1, a.units() + b.units(), 1);
}

/// Subtracting a number that is not negative never gives more.
pub proof fn lemma_difference_shrinks(a: Double, b: Double)
    requires
        a.finite(),
        b.finite(),
        b.units() >= 0,
    ensures
        !a.difference(b).undefined(),
        a.difference(b).units() <= a.units(),
{
    lemma_difference_units(a, b);
    lemma_round_exact(a, 1);
    lemma_round_ordered(a.units() - b.units(), 1, a.units() * 1, 1);
}

/// A positive difference is one between a larger and a smaller number.
pub proof fn lemma_positive_difference(a: Double, b: Double)
    requires
        a.finite(),
        b.finite(),
        a.difference(b).exceeds(zero()),
    ensures
        a.exceeds(b),
{
    lemma_difference_units(a, b);
    if a.units() <= b.units() {
        lemma_round_exact(zero(), 1);
        lemma_round_ordered(a.units() - b.units(), 1, zero().units() * 1, 1);
    }
}

/// Bits of the number nearest to `num / den`, found from its significand `m` and step
/// exponent `t`: the fraction lies within half a step of `m` steps.
pub proof fn lemma_fraction_bits(num: int, den: int, t: nat, m: int)
    requires
        num > 0,
        den > 0,
        t <= UNIT,
        HIDDEN <= m < 2 * HIDDEN,
        num * pow2((UNIT - t) as nat) == den * m || (m > HIDDEN && den * (2 * m - 1) < 2 * (num
            * pow2((UNIT - t) as nat)) < den * (2 * m + 1)),
    ensures
        Double::of_fraction(num, den).bits == t * HIDDEN + m,
{
    let b = t * HIDDEN + m;
    let p = pow2(t) as int;
    let w = num * pow2((UNIT - t) as nat);
    let n = num * pow2(UNIT as nat);
    lemma_pow2_pos(t);
    lemma_pow2_adds((UNIT - t) as nat, t);
    assert(n == w * p) by (nonlinear_arith)
        requires
            n == num * (pow2((UNIT - t) as nat) * p),
            w == num * pow2((UNIT - t) as nat),
    ;
    lemma_pattern(t, m);
    assert(b < INFINITY) by (nonlinear_arith)
        requires
            b == t * HIDDEN + m,
            t <= 1074,
            m < 2 * HIDDEN,
            HIDDEN == 0x0010_0000_0000_0000,
            INFINITY == 0x7ff0_0000_0000_0000,
    ;
    if w == den * m {
        assert(n == den * scale(b)) by (nonlinear_arith)
            requires
                n == w * p,
                w == den * m,
                scale(b) == m * p,
        ;
        lemma_nearest_exact(den, b);
    } else {
        lemma_pattern(t, m - 1);
        assert(2 * n < den * (scale(b) + scale(b + 1))) by (nonlinear_arith)
            requires
                n == w * p,
                2 * w < den * (2 * m + 1),
                scale(b) == m * p,
                scale(b + 1) == (m + 1) * p,
                p > 0,
        ;
        assert(2 * n > den * (scale(b - 1) + scale(b))) by (nonlinear_arith)
            requires
                n == w * p,
                2 * w > den * (2 * m - 1),
                scale(b) == m * p,
                scale(b - 1) == (m - 1) * p,
                p > 0,
        ;
        lemma_nearest_is(n, den, b);
    }
}

/// The number of a small whole fraction `k / 1` is `k` itself; `e` is how far `k` is shifted to
/// fill the significand.
pub proof fn lemma_whole_fraction(k: int, e: nat)
    requires
        e <= 52,
        HIDDEN <= k * pow2(e) < 2 * HIDDEN,
    ensures
        Double::of_fraction(k, 1).finite(),
        !Double::of_fraction(k, 1).negative(),
        Double::of_fraction(k, 1).units() == k * pow2(UNIT as nat),
{
    let t = (UNIT - e) as nat;
    let m = k * pow2(e);
    lemma_pow2_pos(e);
    assert(k > 0) by (nonlinear_arith)
        requires
            k * pow2(e) > 0,
            pow2(e) > 0,
    ;
    assert(UNIT - t == e);
    lemma_fraction_bits(k, 1, t, m);
    lemma_pattern(t, m);
    lemma_pow2_adds(e, t);
    let p = pow2(e) as int;
    let q = pow2(t) as int;
    assert((k * p) * q == k * (p * q)) by (nonlinear_arith);
    assert(t * HIDDEN + m < INFINITY) by (nonlinear_arith)
        requires
            t <= 1074,
            m < 2 * HIDDEN,
            HIDDEN == 0x0010_0000_0000_0000,
            INFINITY == 0x7ff0_0000_0000_0000,
    ;
}

/// A count becomes a finite number that is not negative, and larger counts become no smaller
/// numbers.
pub proof fn lemma_counts_ordered(a: nat, b: nat)
    requires
        a <= b <= u64::MAX,
    ensures
        Double::of_count(a).finite(),
        Double::of_count(b).finite(),
        !Double::of_count(a).negative(),
        !Double::of_count(b).negative(),
        0 <= Double::of_count(a).units() <= Double::of_count(b).units(),
        a > 0 ==> Double::of_count(a).units() > 0,
        a == 0 ==> Double::of_count(a).units() == 0,
{
    lemma_count_finite(a);
    lemma_count_finite(b);
    let p = pow2(UNIT as nat) as int;
    lemma_pow2_pos(UNIT as nat);
    let x = a * p;
    let y = b * p;
    assert(0 <= x <= y) by (nonlinear_arith)
        requires
            x == a * p,
            y == b * p,
            0 <= a <= b,
            p > 0,
    ;
    lemma_round_ordered(x, 1, y, 1);
    if a > 0 {
        assert(x >= p) by (nonlinear_arith)
            requires
                x == a * p,
                a >= 1,
                p > 0,
        ;
        lemma2_to64();
        lemma2_to64_rest();
        lemma_whole_fraction(1, 52);
        lemma_round_exact(Double::of_fraction(1, 1), 1);
        lemma_round_ordered(Double::of_fraction(1, 1).units() * 1, 1, x, 1);
    } else {
        assert(x == 0) by (nonlinear_arith)
            requires
                x == a * p,
                a == 0,
        ;
        lemma_round_exact(zero(), 1);
    }
}

proof fn lemma_count_finite(n: nat)
    requires
        n <= u64::MAX,
    ensures
        Double::of_count(n).finite(),
        !Double::of_count(n).negative(),
        Double::of_count(n).units() == round_units((n * pow2(UNIT as nat)) as int, 1),
{
    let x = (n * pow2(UNIT as nat)) as int;
    let b = nearest(x, 1);
    lemma_nearest_exists(x, 1);
    // 2^64 is representable, so no count rounds beyond it
    let t = (UNIT + 12) as nat;
    lemma_pow2_127();
    lemma2_to64();
    lemma_pattern(t, HIDDEN as int);
    let top = t * HIDDEN + HIDDEN;
    lemma_pow2_adds(64, UNIT as nat);
    lemma_pow2_adds(52, t);
    let p = pow2(UNIT as nat) as int;
    lemma_pow2_pos(UNIT as nat);
    assert(x <= pow2(64) * p) by (nonlinear_arith)
        requires
            x == n * p,
            n <= pow2(64),
            p > 0,
    ;
    assert(scale(top) == pow2(64) * p);
    lemma_nearest_exact(1, top);
    assert(1 * scale(top) == scale(top));
    lemma_nearest_ordered(x, 1, b, scale(top), 1, top);
    lemma_signed(false, b);
}

/// A number between zero and a finite one is finite.
pub proof fn lemma_bounded_is_finite(x: Double, bound: Double)
    requires
        !x.undefined(),
        bound.finite(),
        0 <= x.units() <= bound.units(),
    ensures
        x.finite(),
{
    if x.infinite() {
        lemma_scale_increases(bound.pattern(), x.pattern());
        lemma_scale_nonnegative(bound.pattern());
    }
}

} // verus!
