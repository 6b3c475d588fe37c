//! Times as text with three decimals.
use vstd::prelude::*;
use vstd::arithmetic::power2::{
    lemma2_to64, lemma_pow2_adds, lemma_pow2_pos, lemma_pow2_strictly_increases, lemma_pow2_unfold,
    pow2,
};
use vstd::string::StringExecFns;
use crate::double::{magnitude, significand, Double, UNIT};
use crate::rounding::{lemma_pow2_127, lemma_scale_nonnegative, scale, two_to, INFINITY};
use crate::text::{
    decimal, digits_of, digits_value, digits_wf, double_digits, push_decimal, push_digits,
    push_three_digits, three_digits,
};

verus! {

/// The whole number nearest to `num / den`, halfway cases going to the even one.
pub open spec fn nearest_whole(num: int, den: int) -> int {
    let q = num / den;
    let r = num % den;
    if 2 * r < den || (2 * r == den && q % 2 == 0) {
        q
    } else {
        q + 1
    }
}

/// Magnitude of a finite number in thousandths, rounded.
pub open spec fn thousandths(x: Double) -> nat {
    nearest_whole(scale(x.pattern()) * 1000, pow2(UNIT as nat) as int) as nat
}

pub open spec fn sign_text(x: Double) -> Seq<char> {
    if x.negative() {
        "-"@
    } else {
        Seq::empty()
    }
}

/// Text of a number with exactly three decimals.
pub open spec fn fixed(x: Double) -> Seq<char> {
    if x.undefined() {
        "NaN"@
    } else if x.infinite() {
        sign_text(x) + "inf"@
    } else {
        sign_text(x) + decimal(thousandths(x) / 1000) + "."@ + three_digits(thousandths(x))
    }
}

/// Appends a number with exactly three decimals.
pub fn push_fixed(out: &mut String, x: Double)
    ensures
        final(out)@ == old(out)@ + fixed(x),
{
    let (negative, pattern): (bool, u64) = x.split();
    if pattern > INFINITY {
        out.append("NaN");
        return;
    }
    if negative {
        out.append("-");
    }
    assert(out@ =~= old(out)@ + sign_text(x));
    if pattern == INFINITY {
        out.append("inf");
        assert(out@ =~= old(out)@ + fixed(x));
        return;
    }
    let (m, t): (u64, u32) = significand(pattern);
    if t >= UNIT {
        let mut ds: Vec<u8> = digits_of(m);
        let mut done: u32 = 0;
        proof {
            lemma2_to64();
        }
        while done < t - UNIT
            invariant
                done <= t - UNIT,
                t >= UNIT,
                digits_wf(ds@),
                digits_value(ds@) == m * pow2(done as nat),
            decreases t - UNIT - done,
        {
            double_digits(&mut ds);
            proof {
                lemma_pow2_unfold((done + 1) as nat);
                let p = pow2(done as nat) as int;
                assert(2 * (m * p) == m * (2 * p)) by (nonlinear_arith);
            }
            done = done + 1;
        }
        let ghost v = digits_value(ds@);
        proof {
            lemma_whole(m as int, (t - UNIT) as nat, v as int);
            assert(scale(pattern as int) == v * pow2(UNIT as nat)) by {
                lemma_pow2_adds((t - UNIT) as nat, UNIT as nat);
                let a = pow2((t - UNIT) as nat) as int;
                let b = pow2(UNIT as nat) as int;
                assert(m * (a * b) == (m * a) * b) by (nonlinear_arith);
            }
            assert(thousandths(x) == v * 1000);
            assert(three_digits((v * 1000) as nat) == three_digits(0)) by {
                assert(v * 1000 / 100 % 10 == 0);
                assert(v * 1000 / 10 % 10 == 0);
                assert(v * 1000 % 10 == 0);
            }
        }
        push_digits(out, &ds);
        out.append(".");
        push_three_digits(out, 0);
        assert(out@ =~= old(out)@ + fixed(x));
        return;
    }
    let s: u32 = UNIT - t;
    let n: u64 = m * 1000;
    let q: u64 = if s > 64 {
        0
    } else {
        let d: u128 = two_to(s);
        let q: u128 = n as u128 / d;
        let r: u128 = n as u128 % d;
        proof {
            lemma_pow2_127();
            if s < 64 {
                lemma_pow2_strictly_increases(s as nat, 64);
            }
            vstd::arithmetic::div_mod::lemma_fundamental_div_mod(n as int, d as int);
            assert(q <= n) by (nonlinear_arith)
                requires
                    n == d * q + r,
                    d > 0,
                    r >= 0,
                    q >= 0,
            ;
        }
        if 2 * r < d || (2 * r == d && q % 2 == 0) {
            q as u64
        } else {
            (q + 1) as u64
        }
    };
    proof {
        lemma_fraction(n as int, t as nat, s as nat);
        lemma_pow2_127();
        let p = pow2(t as nat) as int;
        assert((m * p) * 1000 == (m * 1000) * p) by (nonlinear_arith);
        if s > 64 {
            lemma_pow2_strictly_increases(64, s as nat);
            vstd::arithmetic::div_mod::lemma_fundamental_div_mod_converse(
                n as int,
                pow2(s as nat) as int,
                0,
                n as int,
            );
        }
        assert(thousandths(x) == q);
    }
    push_decimal(out, q / 1000);
    out.append(".");
    push_three_digits(out, q);
    assert(out@ =~= old(out)@ + fixed(x));
}

proof fn lemma_whole(m: int, up: nat, v: int)
    requires
        v == m * pow2(up),
        v >= 0,
    ensures
        nearest_whole((v * pow2(UNIT as nat)) * 1000, pow2(UNIT as nat) as int) == v * 1000,
{
    let d = pow2(UNIT as nat) as int;
    lemma_pow2_pos(UNIT as nat);
    let num = (v * d) * 1000;
    assert(num == d * (v * 1000) + 0) by (nonlinear_arith)
        requires
            num == (v * d) * 1000,
    ;
    assert(num == (v * 1000) * d + 0) by (nonlinear_arith)
        requires
            num == d * (v * 1000) + 0,
    ;
    vstd::arithmetic::div_mod::lemma_fundamental_div_mod_converse(num, d, v * 1000, 0);
}

/// Dropping a common factor of two leaves the nearest whole number.
proof fn lemma_fraction(n: int, t: nat, s: nat)
    requires
        n >= 0,
    ensures
        nearest_whole(n * pow2(t), pow2(t + s) as int) == nearest_whole(n, pow2(s) as int),
{
    lemma_pow2_adds(t, s);
    lemma_pow2_pos(t);
    lemma_pow2_pos(s);
    let p = pow2(t) as int;
    let d = pow2(s) as int;
    let q = n / d;
    let r = n % d;
    vstd::arithmetic::div_mod::lemma_fundamental_div_mod(n, d);
    assert(n * p == q * (p * d) + r * p) by (nonlinear_arith)
        requires
            n == d * q + r,
    ;
    assert(0 <= r * p < p * d) by (nonlinear_arith)
        requires
            0 <= r < d,
            p > 0,
    ;
    vstd::arithmetic::div_mod::lemma_fundamental_div_mod_converse(n * p, p * d, q, r * p);
    assert(2 * (r * p) < p * d <==> 2 * r < d) by (nonlinear_arith)
        requires
            p > 0,
    ;
    assert(2 * (r * p) == p * d <==> 2 * r == d) by (nonlinear_arith)
        requires
            p > 0,
    ;
}

/// The text of a time is off by at most half a thousandth of a second.
pub proof fn law_fixed_is_within_half_a_thousandth(x: Double)
    requires
        x.finite(),
    ensures
        2 * magnitude(scale(x.pattern()) * 1000 - thousandths(x) * pow2(UNIT as nat)) <= pow2(
            UNIT as nat,
        ),
{
    let num = scale(x.pattern()) * 1000;
    let den = pow2(UNIT as nat) as int;
    lemma_pow2_pos(UNIT as nat);
    lemma_scale_nonnegative(x.pattern());
    vstd::arithmetic::div_mod::lemma_fundamental_div_mod(num, den);
    let q = num / den;
    assert(q >= 0) by (nonlinear_arith)
        requires
            num >= 0,
            den > 0,
            q == num / den,
    ;
    assert(den * q == q * den && (q + 1) * den == q * den + den) by (nonlinear_arith);
}

} // verus!
