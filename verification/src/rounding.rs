//! Magnitudes of binary64 numbers and rounding to the nearest of them.
//!
//! Without its sign bit, the bit pattern of a number counts through the
//! representable magnitudes in order: pattern 0 is zero, pattern 1 the smallest
//! subnormal, and so on up to the pattern of infinity. All magnitudes are whole
//! multiples of the smallest subnormal, so they are stated as integers in that unit.
use vstd::prelude::*;
use vstd::arithmetic::power2::{
    lemma2_to64, lemma2_to64_rest, lemma_pow2_adds, lemma_pow2_pos, lemma_pow2_strictly_increases,
    lemma_pow2_unfold, pow2,
};

verus! {

/// Number of patterns that share one exponent: the fraction has 52 bits.
pub const HIDDEN: u64 = 0x0010_0000_0000_0000;

/// Pattern of infinity, the first one past the finite magnitudes.
pub const INFINITY: u64 = 0x7ff0_0000_0000_0000;

/// Binary exponent of the distance from pattern `b` to the next one.
pub open spec fn step(b: int) -> nat {
    if b < HIDDEN {
        0
    } else {
        (b / HIDDEN as int - 1) as nat
    }
}

/// Magnitude of the pattern `b`, in units of the smallest subnormal. At the pattern of
/// infinity this is the power of two that follows the largest finite number.
pub open spec fn scale(b: int) -> int {
    if b < HIDDEN {
        b
    } else {
        (HIDDEN + b % HIDDEN as int) * pow2(step(b))
    }
}

/// `b` is the pattern nearest to the magnitude `num / den`; halfway between two patterns,
/// the even one. Magnitudes from halfway past the largest finite number on give infinity.
pub open spec fn is_nearest(num: int, den: int, b: int) -> bool {
    &&& 0 <= b <= INFINITY
    &&& b < INFINITY ==> {
        let middle = den * (scale(b) + scale(b + 1));
        2 * num < middle || (2 * num == middle && b % 2 == 0)
    }
    &&& b > 0 ==> {
        let middle = den * (scale(b - 1) + scale(b));
        2 * num > middle || (2 * num == middle && b % 2 == 0)
    }
}

/// The pattern nearest to the magnitude `num / den`.
pub open spec fn nearest(num: int, den: int) -> int {
    choose|b: int| is_nearest(num, den, b)
}

/// Each pattern is followed by the magnitude one step further up.
pub proof fn lemma_scale_step(b: int)
    requires
        0 <= b,
    ensures
        scale(b + 1) == scale(b) + pow2(step(b)),
        pow2(step(b)) > 0,
{
    lemma_pow2_pos(step(b));
    lemma2_to64();
    let h = HIDDEN as int;
    if b + 1 < h {
    } else if b + 1 == h {
        assert((b + 1) / h == 1 && (b + 1) % h == 0);
        assert((h + 0) * 1 == h);
    } else {
        let e = b / h;
        let f = b % h;
        assert(b == e * h + f) by {
            vstd::arithmetic::div_mod::lemma_fundamental_div_mod(b, h);
        }
        let p = pow2(step(b)) as int;
        if f + 1 < h {
            vstd::arithmetic::div_mod::lemma_fundamental_div_mod_converse(b + 1, h, e, f + 1);
            assert((h + f + 1) * p == (h + f) * p + p) by (nonlinear_arith);
        } else {
            vstd::arithmetic::div_mod::lemma_fundamental_div_mod_converse(b + 1, h, e + 1, 0);
            assert(step(b + 1) == step(b) + 1);
            lemma_pow2_unfold(step(b + 1));
            assert((h + 0) * (2 * p) == (h + f) * p + p) by (nonlinear_arith)
                requires
                    f == h - 1,
            ;
        }
    }
}

/// A larger pattern has a larger magnitude.
pub proof fn lemma_scale_increases(a: int, b: int)
    requires
        0 <= a < b,
    ensures
        scale(a) < scale(b),
        scale(a) >= 0,
    decreases b - a,
{
    lemma_scale_step(b - 1);
    if a < b - 1 {
        lemma_scale_increases(a, b - 1);
    } else {
        lemma_scale_nonnegative(a);
    }
}

/// Magnitudes are not negative.
pub proof fn lemma_scale_nonnegative(b: int)
    requires
        0 <= b,
    ensures
        scale(b) >= 0,
{
    lemma_pow2_pos(step(b));
    if b >= HIDDEN {
        let p = pow2(step(b)) as int;
        let m = HIDDEN + b % HIDDEN as int;
        assert(m * p >= 0) by (nonlinear_arith)
            requires
                m >= 0,
                p > 0,
        ;
    }
}

/// Rounding keeps order: of two magnitudes the smaller one has no larger nearest pattern.
pub proof fn lemma_nearest_ordered(n1: int, d1: int, b1: int, n2: int, d2: int, b2: int)
    requires
        d1 > 0,
        d2 > 0,
        n1 * d2 <= n2 * d1,
        is_nearest(n1, d1, b1),
        is_nearest(n2, d2, b2),
    ensures
        b1 <= b2,
{
    if b1 > b2 {
        let s1 = scale(b1 - 1) + scale(b1);
        let s2 = scale(b2) + scale(b2 + 1);
        if b1 > b2 + 1 {
            lemma_scale_increases(b2, b1 - 1);
            lemma_scale_increases(b2 + 1, b1);
            assert(s1 > s2);
        } else {
            assert(s1 == s2);
        }
        assert(2 * n1 >= d1 * s1);
        assert(2 * n2 <= d2 * s2);
        assert(2 * n1 * d2 >= d1 * s1 * d2) by (nonlinear_arith)
            requires
                2 * n1 >= d1 * s1,
                d2 > 0,
        ;
        assert(2 * n2 * d1 <= d2 * s2 * d1) by (nonlinear_arith)
            requires
                2 * n2 <= d2 * s2,
                d1 > 0,
        ;
        assert(2 * n1 * d2 == 2 * (n1 * d2)) by (nonlinear_arith);
        assert(2 * n2 * d1 == 2 * (n2 * d1)) by (nonlinear_arith);
        assert(d1 * s1 * d2 == (d1 * d2) * s1) by (nonlinear_arith);
        assert(d2 * s2 * d1 == (d1 * d2) * s2) by (nonlinear_arith);
        assert(d1 * d2 > 0) by (nonlinear_arith)
            requires
                d1 > 0,
                d2 > 0,
        ;
        if s1 > s2 {
            assert((d1 * d2) * s1 > (d1 * d2) * s2) by (nonlinear_arith)
                requires
                    d1 * d2 > 0,
                    s1 > s2,
            ;
        } else {
            assert(2 * n1 * d2 == d1 * s1 * d2);
            assert(2 * n2 * d1 == d2 * s2 * d1);
            assert(2 * n1 == d1 * s1) by (nonlinear_arith)
                requires
                    2 * n1 * d2 == d1 * s1 * d2,
                    d2 > 0,
            ;
            assert(2 * n2 == d2 * s2) by (nonlinear_arith)
                requires
                    2 * n2 * d1 == d2 * s2 * d1,
                    d1 > 0,
            ;
            assert(b1 % 2 == 0 && b2 % 2 == 0);
        }
    }
}

/// There is one nearest pattern only: whatever meets `is_nearest` is `nearest`.
pub proof fn lemma_nearest_is(num: int, den: int, b: int)
    requires
        den > 0,
        is_nearest(num, den, b),
    ensures
        nearest(num, den) == b,
{
    let c = nearest(num, den);
    lemma_nearest_ordered(num, den, b, num, den, c);
    lemma_nearest_ordered(num, den, c, num, den, b);
}

/// A representable magnitude is nearest to itself.
pub proof fn lemma_nearest_exact(den: int, b: int)
    requires
        den > 0,
        0 <= b <= INFINITY,
    ensures
        is_nearest(den * scale(b), den, b),
        nearest(den * scale(b), den) == b,
{
    lemma_scale_increases(b, b + 1);
    assert(2 * (den * scale(b)) < den * (scale(b) + scale(b + 1))) by (nonlinear_arith)
        requires
            den > 0,
            scale(b) < scale(b + 1),
    ;
    if b > 0 {
        lemma_scale_increases(b - 1, b);
        assert(2 * (den * scale(b)) > den * (scale(b - 1) + scale(b))) by (nonlinear_arith)
            requires
                den > 0,
                scale(b - 1) < scale(b),
        ;
    }
    lemma_nearest_is(den * scale(b), den, b);
}

/// The largest pattern up to `top` whose magnitude does not exceed `num / den`.
spec fn floor_pattern(num: int, den: int, top: int) -> int
    decreases top,
{
    if top <= 0 || den * scale(top) <= num {
        top
    } else {
        floor_pattern(num, den, top - 1)
    }
}

proof fn lemma_floor_pattern(num: int, den: int, top: int)
    requires
        num >= 0,
        top >= 0,
    ensures
        0 <= floor_pattern(num, den, top) <= top,
        den * scale(floor_pattern(num, den, top)) <= num,
        floor_pattern(num, den, top) < top ==> den * scale(floor_pattern(num, den, top) + 1) > num,
    decreases top,
{
    if top <= 0 {
        assert(den * 0 == 0) by (nonlinear_arith);
    } else if den * scale(top) <= num {
    } else {
        lemma_floor_pattern(num, den, top - 1);
    }
}

/// Every magnitude has a nearest pattern.
pub proof fn lemma_nearest_exists(num: int, den: int)
    requires
        num >= 0,
        den > 0,
    ensures
        is_nearest(num, den, nearest(num, den)),
{
    let b = floor_pattern(num, den, INFINITY as int);
    lemma_floor_pattern(num, den, INFINITY as int);
    lemma_round_between(num, den, b);
}

/// A magnitude between two neighbouring patterns is nearest to one of them.
pub proof fn lemma_round_between(num: int, den: int, b: int)
    requires
        den > 0,
        0 <= b <= INFINITY,
        den * scale(b) <= num,
        b < INFINITY ==> num < den * scale(b + 1),
    ensures
        exists|c: int| is_nearest(num, den, c),
        b == INFINITY ==> is_nearest(num, den, b),
        b < INFINITY ==> {
            let middle = den * (scale(b) + scale(b + 1));
            &&& 2 * num < middle || (2 * num == middle && b % 2 == 0) ==> is_nearest(num, den, b)
            &&& 2 * num > middle || (2 * num == middle && b % 2 == 1) ==> is_nearest(
                num,
                den,
                b + 1,
            )
        },
{
    if b > 0 {
        lemma_scale_increases(b - 1, b);
        assert(2 * num > den * (scale(b - 1) + scale(b))) by (nonlinear_arith)
            requires
                den > 0,
                scale(b - 1) < scale(b),
                den * scale(b) <= num,
        ;
    }
    if b < INFINITY {
        let middle = den * (scale(b) + scale(b + 1));
        lemma_scale_increases(b + 1, b + 2);
        assert(2 * num < den * (scale(b + 1) + scale(b + 2))) by (nonlinear_arith)
            requires
                den > 0,
                scale(b + 1) < scale(b + 2),
                num < den * scale(b + 1),
        ;
        if 2 * num < middle || (2 * num == middle && b % 2 == 0) {
            assert(is_nearest(num, den, b));
        } else {
            assert(is_nearest(num, den, b + 1));
        }
    } else {
        assert(is_nearest(num, den, b));
    }
}

/// The magnitude `num / den` lies in the half-open interval from `n` to `n + 1`, counted
/// in steps of two to the power `k`, and at its lower end exactly when `exact` holds.
pub open spec fn bracketed(num: int, den: int, n: int, k: int, exact: bool) -> bool {
    let y = num * pow2(if k < 0 { (-k) as nat } else { 0 });
    let d = den * pow2(if k > 0 { k as nat } else { 0 });
    n * d <= y < (n + 1) * d && (exact <==> y == n * d)
}

/// Comparing `num / den` with `c` steps of size `2^t` is comparing its bracketed form with
/// `c * 2^s` steps of size `2^k`, where `t` is `k + s`.
proof fn lemma_rescale(num: int, den: int, k: int, s: nat, c: int)
    requires
        k + s >= 0,
    ensures
        ({
            let y = num * pow2(if k < 0 { (-k) as nat } else { 0 });
            let d = den * pow2(if k > 0 { k as nat } else { 0 });
            let left = den * (c * pow2((k + s) as nat));
            let right = (c * pow2(s)) * d;
            &&& num < left <==> y < right
            &&& num == left <==> y == right
        }),
{
    lemma2_to64();
    if k >= 0 {
        lemma_pow2_adds(k as nat, s);
        let a = pow2(k as nat) as int;
        let b = pow2(s) as int;
        assert(den * (c * (a * b)) == (c * b) * (den * a)) by (nonlinear_arith);
        assert(k == 0 ==> pow2(0) == a);
    } else {
        let u = (-k) as nat;
        let t = (k + s) as nat;
        lemma_pow2_adds(t, u);
        lemma_pow2_pos(u);
        let a = pow2(u) as int;
        let b = pow2(t) as int;
        assert(pow2(s) == b * a);
        let left = den * (c * b);
        assert((c * (b * a)) * (den * 1) == left * a) by (nonlinear_arith)
            requires
                left == den * (c * b),
        ;
        assert(num < left <==> num * a < left * a) by (nonlinear_arith)
            requires
                a > 0,
        ;
        assert(num == left <==> num * a == left * a) by (nonlinear_arith)
            requires
                a > 0,
        ;
    }
}

/// The pattern made of the step exponent `t` and the significand `m`.
pub proof fn lemma_pattern(t: nat, m: int)
    requires
        0 <= m < 2 * HIDDEN,
        t > 0 ==> m >= HIDDEN,
    ensures
        scale(t * HIDDEN + m) == m * pow2(t),
        scale(t * HIDDEN + m + 1) == (m + 1) * pow2(t),
        t * HIDDEN + m >= 0,
{
    let h = HIDDEN as int;
    let b = t * h + m;
    lemma2_to64();
    assert(b >= 0) by (nonlinear_arith)
        requires
            b == t * h + m,
            m >= 0,
            h >= 0,
            t >= 0,
    ;
    if m >= h {
        assert(b == (t + 1) * h + (m - h)) by (nonlinear_arith)
            requires
                b == t * h + m,
        ;
        vstd::arithmetic::div_mod::lemma_fundamental_div_mod_converse(b, h, t as int + 1, m - h);
        assert(b >= h) by (nonlinear_arith)
            requires
                b == (t + 1) * h + (m - h),
                m >= h,
                t >= 0,
                h > 0,
        ;
    } else {
        assert(b == m);
        assert(m * 1 == m);
    }
    lemma_scale_step(b);
    let p = pow2(t) as int;
    assert(m * p + p == (m + 1) * p) by (nonlinear_arith);
}

/// Two to the power `e`.
pub fn two_to(e: u32) -> (r: u128)
    requires
        e < 128,
    ensures
        r == pow2(e as nat),
        r > 0,
{
    let mut r: u128 = 1;
    let mut i: u32 = 0;
    proof {
        lemma2_to64();
        lemma_pow2_127();
    }
    while i < e
        invariant
            i <= e < 128,
            r == pow2(i as nat),
            r > 0,
            pow2(127) == 0x8000_0000_0000_0000_0000_0000_0000_0000,
        decreases e - i,
    {
        proof {
            lemma_pow2_unfold((i + 1) as nat);
            if i + 1 < 127 {
                lemma_pow2_strictly_increases((i + 1) as nat, 127);
            }
        }
        r = r * 2;
        i = i + 1;
    }
    r
}

pub proof fn lemma_pow2_127()
    ensures
        pow2(52) == HIDDEN,
        pow2(53) == 0x20_0000_0000_0000,
        pow2(64) == 0x1_0000_0000_0000_0000,
        pow2(127) == 0x8000_0000_0000_0000_0000_0000_0000_0000,
        pow2(128) == 0x1_0000_0000_0000_0000_0000_0000_0000_0000,
{
    lemma2_to64();
    lemma2_to64_rest();
    lemma_pow2_adds(64, 64);
    lemma_pow2_adds(64, 63);
}

/// Number of binary digits of `n`.
pub fn bit_length(n: u128) -> (len: u32)
    requires
        n > 0,
    ensures
        1 <= len <= 128,
        pow2((len - 1) as nat) <= n < pow2(len as nat),
{
    let mut rest: u128 = n / 2;
    let mut len: u32 = 1;
    proof {
        lemma2_to64();
        lemma_pow2_127();
        assert(n < (rest + 1) * pow2(1));
    }
    while rest > 0
        invariant
            1 <= len <= 128,
            rest > 0 ==> len < 128,
            pow2((len - 1) as nat) <= n,
            rest * pow2(len as nat) <= n < (rest + 1) * pow2(len as nat),
            pow2(128) == 0x1_0000_0000_0000_0000_0000_0000_0000_0000,
        decreases rest,
    {
        let ghost p = pow2(len as nat) as int;
        let ghost before = rest as int;
        rest = rest / 2;
        len = len + 1;
        proof {
            lemma_pow2_unfold(len as nat);
            let half = rest as int;
            assert(p <= n) by (nonlinear_arith)
                requires
                    before >= 1,
                    before * p <= n,
                    p >= 0,
            ;
            assert(half * (2 * p) <= before * p) by (nonlinear_arith)
                requires
                    2 * half <= before,
                    p >= 0,
            ;
            assert((before + 1) * p <= (half + 1) * (2 * p)) by (nonlinear_arith)
                requires
                    before + 1 <= 2 * half + 2,
                    p >= 0,
            ;
            if half > 0 && len == 128 {
                assert(half * pow2(128) >= pow2(128)) by (nonlinear_arith)
                    requires
                        half >= 1,
                ;
            }
        }
    }
    proof {
        let p = pow2(len as nat) as int;
        assert((0 + 1) * p == p) by (nonlinear_arith);
    }
    len
}

/// Rounds a bracketed magnitude to its nearest pattern.
pub fn round_bracketed(
    n: u128,
    k: i32,
    exact: bool,
    Ghost(num): Ghost<int>,
    Ghost(den): Ghost<int>,
) -> (b: u64)
    requires
        den > 0,
        -8000 <= k <= 8000,
        exact || n >= 2 * HIDDEN,
        bracketed(num, den, n as int, k as int, exact),
    ensures
        b <= INFINITY,
        is_nearest(num, den, b as int),
{
    let ghost y = num * pow2(if k < 0 { (-k) as nat } else { 0 });
    let ghost d = den * pow2(if k > 0 { k as nat } else { 0 });
    proof {
        lemma2_to64();
        lemma_pow2_127();
        lemma_pow2_pos(if k > 0 { k as nat } else { 0 });
        lemma_pow2_pos(if k < 0 { (-k) as nat } else { 0 });
        let a = pow2(if k > 0 { k as nat } else { 0 }) as int;
        assert(d > 0) by (nonlinear_arith)
            requires
                d == den * a,
                den > 0,
                a > 0,
        ;
    }
    if n == 0 {
        proof {
            assert(0 * d == 0) by (nonlinear_arith);
            let a = pow2(if k < 0 { (-k) as nat } else { 0 }) as int;
            assert(num == 0) by (nonlinear_arith)
                requires
                    num * a == 0,
                    a > 0,
            ;
            assert(den * 0 == 0) by (nonlinear_arith);
            lemma_nearest_exact(den, 0);
        }
        return 0;
    }
    let len: u32 = bit_length(n);
    let reach: i32 = len as i32 + k - 53;
    let t: i32 = if reach > 0 {
        reach
    } else {
        0
    };
    if t >= 2046 {
        proof {
            lemma_overflow(num, den, n as int, k as int, exact, len as nat);
        }
        return INFINITY;
    }
    let s: i32 = t - k;
    if s <= 0 {
        let shift: u128 = two_to((-s) as u32);
        proof {
            lemma_pow2_adds(len as nat, (-s) as nat);
            lemma_pow2_adds((len - 1) as nat, (-s) as nat);
            let p = shift as int;
            assert(n * p < pow2(len as nat) * p) by (nonlinear_arith)
                requires
                    n < pow2(len as nat),
                    p > 0,
            ;
            assert(pow2((len - 1) as nat) * p <= n * p) by (nonlinear_arith)
                requires
                    pow2((len - 1) as nat) <= n,
                    p > 0,
            ;
            if len + (-s) < 53 {
                lemma_pow2_strictly_increases((len + (-s)) as nat, 53);
            }
        }
        let m: u128 = n * shift;
        let b: u64 = t as u64 * HIDDEN + m as u64;
        proof {
            lemma_pattern(t as nat, m as int);
            // The magnitude is n steps of 2^k, that is m steps of 2^t.
            assert(exact) by {
                if !exact {
                    if len <= 53 && len < 53 {
                        lemma_pow2_strictly_increases(len as nat, 53);
                    }
                }
            }
            lemma_pow2_adds(t as nat, (-s) as nat);
            let pk = pow2(k as nat) as int;
            let pt = pow2(t as nat) as int;
            let ps = shift as int;
            assert(k >= 0);
            assert(pk == pt * ps);
            assert(y == num) by {
                assert(num * 1 == num) by (nonlinear_arith);
            }
            assert(d == den * pk);
            assert(n * (den * (pt * ps)) == den * ((n * ps) * pt)) by (nonlinear_arith);
            assert(num == den * scale(b as int));
            lemma_nearest_exact(den, b as int);
        }
        return b;
    }
    if s > 128 {
        proof {
            lemma_underflow(num, den, n as int, k as int, exact, s as nat);
        }
        return 0;
    }
    let half: u128 = two_to((s - 1) as u32);
    let q: u128 = n / half;
    let r: u128 = n % half;
    let m: u128 = q / 2;
    proof {
        lemma_pow2_unfold(s as nat);
        let h = half as int;
        assert(n == q * h + r) by {
            vstd::arithmetic::div_mod::lemma_fundamental_div_mod(n as int, h);
            assert(h * q == q * h) by (nonlinear_arith);
        }
        lemma_significand(n as int, k as int, len as nat, t as nat, s as nat, m as int, q as int, r as int, h);
    }
    let b: u64 = t as u64 * HIDDEN + m as u64;
    proof {
        let h = half as int;
        let c = q - 2 * m;
        lemma_pattern(t as nat, m as int);
        lemma_rescale(num, den, k as int, s as nat, m as int);
        lemma_rescale(num, den, k as int, s as nat, m + 1);
        // floor and ceiling
        assert(m * pow2(s as nat) <= n) by (nonlinear_arith)
            requires
                pow2(s as nat) == 2 * h,
                n == q * h + r,
                r >= 0,
                2 * m <= q,
                h > 0,
        ;
        assert(n + 1 <= (m + 1) * pow2(s as nat)) by (nonlinear_arith)
            requires
                pow2(s as nat) == 2 * h,
                n == q * h + r,
                r < h,
                q <= 2 * m + 1,
                h > 0,
        ;
        assert((m * pow2(s as nat)) * d <= n * d) by (nonlinear_arith)
            requires
                m * pow2(s as nat) <= n,
                d > 0,
        ;
        assert((n + 1) * d <= ((m + 1) * pow2(s as nat)) * d) by (nonlinear_arith)
            requires
                n + 1 <= (m + 1) * pow2(s as nat),
                d > 0,
        ;
        assert(den * scale(b as int) <= num);
        assert(num < den * scale(b + 1));
        // the middle: twice the magnitude against 2m + 1 steps
        let pt = pow2(t as nat) as int;
        let middle = den * (scale(b as int) + scale(b + 1));
        assert(m * pt + (m + 1) * pt == (2 * m + 1) * pt) by (nonlinear_arith);
        lemma_rescale(2 * num, den, k as int, s as nat, 2 * m + 1);
        let y2 = (2 * num) * pow2(if k < 0 { (-k) as nat } else { 0 });
        assert(y2 == 2 * y) by (nonlinear_arith)
            requires
                y2 == (2 * num) * pow2(if k < 0 { (-k) as nat } else { 0 }),
                y == num * pow2(if k < 0 { (-k) as nat } else { 0 }),
        ;
        let center = ((2 * m + 1) * pow2(s as nat)) * d;
        assert(center == 2 * (((2 * m + 1) * h) * d)) by (nonlinear_arith)
            requires
                pow2(s as nat) == 2 * h,
                center == ((2 * m + 1) * pow2(s as nat)) * d,
        ;
        if c == 0 {
            assert((n + 1) * d <= ((2 * m + 1) * h) * d) by (nonlinear_arith)
                requires
                    n == (2 * m) * h + r,
                    r < h,
                    d > 0,
            ;
        } else {
            assert(n * d == ((2 * m + 1) * h) * d + r * d) by (nonlinear_arith)
                requires
                    n == (2 * m + 1) * h + r,
            ;
            assert(r * d >= 0 && (r > 0 ==> r * d > 0) && (r == 0 ==> r * d == 0)) by (nonlinear_arith)
                requires
                    r >= 0,
                    d > 0,
            ;
        }
        lemma_round_between(num, den, b as int);
    }
    let up: bool = q % 2 == 1 && (r > 0 || !exact || m % 2 == 1);
    if up {
        b + 1
    } else {
        b
    }
}

proof fn lemma_overflow(num: int, den: int, n: int, k: int, exact: bool, len: nat)
    requires
        den > 0,
        1 <= len <= 128,
        pow2((len - 1) as nat) <= n,
        len + k - 53 >= 2046,
        bracketed(num, den, n, k, exact),
    ensures
        is_nearest(num, den, INFINITY as int),
{
    let h = HIDDEN as int;
    let inf = INFINITY as int;
    assert(inf / h == 2047 && inf % h == 0);
    assert(scale(inf) == (h + 0) * pow2(2046));
    lemma_pow2_127();
    lemma2_to64();
    assert(k > 0);
    lemma_pow2_adds((len - 1) as nat, k as nat);
    lemma_pow2_adds(52, 2046);
    let big = pow2((len - 1 + k) as nat) as int;
    if len - 1 + k > 2098 {
        lemma_pow2_strictly_increases(2098, (len - 1 + k) as nat);
    }
    assert(scale(inf) <= big);
    let pk = pow2(k as nat) as int;
    lemma_pow2_pos(k as nat);
    assert(num * 1 == num) by (nonlinear_arith);
    assert(n * (den * pk) >= den * (pow2((len - 1) as nat) * pk)) by (nonlinear_arith)
        requires
            n >= pow2((len - 1) as nat),
            den > 0,
            pk > 0,
    ;
    assert(den * scale(inf) <= den * big) by (nonlinear_arith)
        requires
            scale(inf) <= big,
            den > 0,
    ;
    lemma_round_between(num, den, inf);
}

proof fn lemma_underflow(num: int, den: int, n: int, k: int, exact: bool, s: nat)
    requires
        den > 0,
        0 <= n < pow2(128),
        s > 128,
        k + s >= 0,
        k + s > 0 ==> s < 128,
        bracketed(num, den, n, k, exact),
    ensures
        is_nearest(num, den, 0),
{
    lemma2_to64();
    assert(k + s == 0);
    let y = num * pow2(if k < 0 { (-k) as nat } else { 0 });
    let d = den * pow2(if k > 0 { k as nat } else { 0 });
    assert(d == den) by {
        assert(den * 1 == den) by (nonlinear_arith);
    }
    lemma_pow2_unfold(s);
    let h = pow2((s - 1) as nat) as int;
    if s - 1 > 128 {
        lemma_pow2_strictly_increases(128, (s - 1) as nat);
    }
    assert(n + 1 <= h);
    assert((n + 1) * d <= h * d) by (nonlinear_arith)
        requires
            n + 1 <= h,
            d > 0,
    ;
    lemma_rescale(2 * num, den, k, s, 1);
    let y2 = (2 * num) * pow2(if k < 0 { (-k) as nat } else { 0 });
    assert(y2 == 2 * y) by (nonlinear_arith)
        requires
            y2 == (2 * num) * pow2(if k < 0 { (-k) as nat } else { 0 }),
            y == num * pow2(if k < 0 { (-k) as nat } else { 0 }),
    ;
    assert((1 * pow2(s)) * d == 2 * (h * d)) by (nonlinear_arith)
        requires
            pow2(s) == 2 * h,
    ;
    assert(den * (1 * pow2(0)) == den * (scale(0) + scale(1)));
    assert(2 * num < den * (scale(0) + scale(1)));
}

/// The significand found by dropping `s` binary digits fits its pattern.
proof fn lemma_significand(
    n: int,
    k: int,
    len: nat,
    t: nat,
    s: nat,
    m: int,
    q: int,
    r: int,
    h: int,
)
    requires
        1 <= len <= 128,
        pow2((len - 1) as nat) <= n < pow2(len),
        s == t - k,
        0 < s <= 128,
        t > 0 ==> t == len + k - 53,
        t == 0 ==> len + k <= 53,
        h == pow2((s - 1) as nat),
        n == q * h + r,
        0 <= r < h,
        m == q / 2,
        q >= 0,
    ensures
        0 <= m < 2 * HIDDEN,
        t > 0 ==> m >= HIDDEN,
{
    lemma_pow2_127();
    lemma_pow2_unfold(s);
    let p = pow2(s) as int;
    assert(p == 2 * h);
    assert(m * p <= n) by (nonlinear_arith)
        requires
            p == 2 * h,
            n == q * h + r,
            r >= 0,
            2 * m <= q,
            h >= 0,
    ;
    assert(n < (m + 1) * p) by (nonlinear_arith)
        requires
            p == 2 * h,
            n == q * h + r,
            r < h,
            q <= 2 * m + 1,
            h >= 0,
    ;
    // n < 2^len <= 2^53 * 2^s
    lemma_pow2_adds(53, s);
    if len < 53 + s {
        lemma_pow2_strictly_increases(len, 53 + s);
    }
    assert(m < 2 * HIDDEN) by (nonlinear_arith)
        requires
            m * p <= n,
            n < pow2(53) * p,
            p > 0,
            pow2(53) == 2 * HIDDEN,
    ;
    if t > 0 {
        lemma_pow2_adds(52, s);
        assert(len - 1 == 52 + s);
        assert(m >= HIDDEN) by (nonlinear_arith)
            requires
                pow2(52) * p <= n,
                n < (m + 1) * p,
                p > 0,
                pow2(52) == HIDDEN,
        ;
    }
}

} // verus!
