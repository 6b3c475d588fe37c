//! Laws on numbers and their text.
use vstd::prelude::*;
use vstd::arithmetic::power2::{
    lemma2_to64, lemma2_to64_rest, lemma_pow2_adds, lemma_pow2_pos, pow2,
};
use crate::double::{
    lemma_difference_units, lemma_signed, lemma_sum_units, magnitude, round_units, rounded, Double,
    UNIT,
};
use crate::probe::{digits_number, lemma_decimal_number};
use crate::rounding::{
    is_nearest, lemma_nearest_exists, lemma_scale_increases, lemma_scale_nonnegative, nearest,
    scale, HIDDEN, INFINITY,
};
use crate::text::{
    decimal, digit, join, joined, lemma_decimal_digits, same_text, texts, three_digits,
};
use crate::timecode::{fixed, thousandths};

verus! {

/// The pattern nearest to a magnitude is at least as near as every other.
proof fn lemma_nearest_is_near(num: int, den: int, c: int)
    requires
        num >= 0,
        den > 0,
        0 <= c <= INFINITY,
    ensures
        magnitude(num - den * scale(nearest(num, den))) <= magnitude(num - den * scale(c)),
        magnitude(num - den * scale(nearest(num, den))) == magnitude(num - den * scale(c))
            ==> nearest(num, den) == c || nearest(num, den) % 2 == 0,
{
    lemma_nearest_exists(num, den);
    let b = nearest(num, den);
    assert(is_nearest(num, den, b));
    let sb = scale(b);
    let sc = scale(c);
    if c > b {
        if c > b + 1 {
            lemma_scale_increases(b + 1, c);
        }
        lemma_scale_increases(b, b + 1);
        let sn = scale(b + 1);
        assert(den * (sb + sn) == den * sb + den * sn) by (nonlinear_arith);
        assert(den * sc >= den * sn && den * sn > den * sb) by (nonlinear_arith)
            requires
                sc >= sn,
                sn > sb,
                den > 0,
        ;
    } else if c < b {
        if c < b - 1 {
            lemma_scale_increases(c, b - 1);
        }
        lemma_scale_increases(b - 1, b);
        let sn = scale(b - 1);
        assert(den * (sn + sb) == den * sn + den * sb) by (nonlinear_arith);
        assert(den * sc <= den * sn && den * sn < den * sb) by (nonlinear_arith)
            requires
                sc <= sn,
                sn < sb,
                den > 0,
        ;
    }
}

/// Halfway between two numbers, rounding gives the one with the even bits.
proof fn lemma_tie_is_even(negative: bool, num: int, den: int, other: Double)
    requires
        num >= 0,
        den > 0,
        !other.undefined(),
    ensures
        ({
            let r = rounded(negative, num, den);
            magnitude(num - den * magnitude(r.units())) == magnitude(
                num - den * magnitude(other.units()),
            ) && magnitude(r.units()) != magnitude(other.units()) ==> r.bits % 2 == 0
        }),
{
    lemma_nearest_exists(num, den);
    lemma_nearest_is_near(num, den, other.pattern());
    lemma_signed(negative, nearest(num, den));
    lemma_scale_nonnegative(nearest(num, den));
    lemma_scale_nonnegative(other.pattern());
}

/// The same of a whole number with its sign.
proof fn lemma_signed_tie_is_even(x: int, other: Double)
    requires
        x != 0,
        !other.undefined(),
    ensures
        ({
            let r = rounded(x < 0, magnitude(x), 1);
            magnitude(x - r.units()) == magnitude(x - other.units()) && r.units() != other.units()
                ==> r.bits % 2 == 0
        }),
{
    let n = magnitude(x);
    let r = rounded(x < 0, n, 1);
    lemma_nearest_exists(n, 1);
    lemma_signed(x < 0, nearest(n, 1));
    lemma_scale_nonnegative(nearest(n, 1));
    lemma_scale_nonnegative(other.pattern());
    lemma_tie_is_even(x < 0, n, 1, other);
    lemma_nearest_is_near(n, 1, 0);
    assert(scale(0) == 0);
}

/// Rounding takes the nearest number: none is nearer to the fraction than the one it gives.
pub proof fn law_rounding_is_nearest(num: int, den: int, other: Double)
    requires
        den > 0,
        !other.undefined(),
    ensures
        magnitude(num - den * round_units(num, den)) <= magnitude(num - den * other.units()),
{
    let c = other.pattern();
    let n = magnitude(num);
    lemma_nearest_is_near(n, den, c);
    lemma_nearest_is_near(n, den, 0);
    lemma_nearest_exists(n, den);
    let sb = scale(nearest(n, den));
    let sc = scale(c);
    lemma_scale_nonnegative(c);
    lemma_scale_nonnegative(nearest(n, den));
    assert(scale(0) == 0);
    assert(den * (-sb) == -(den * sb) && den * (-sc) == -(den * sc) && den * 0 == 0)
        by (nonlinear_arith);
    assert(den * sc >= 0 && den * sb >= 0) by (nonlinear_arith)
        requires
            den > 0,
            sc >= 0,
            sb >= 0,
    ;
}

/// A sum is the number nearest to the exact one, halfway between two the one with the even bits.
pub proof fn law_sum_is_nearest(a: Double, b: Double, r: Double, other: Double)
    requires
        call_ensures(Double::plus, (a, b), r),
        a.finite(),
        b.finite(),
        !other.undefined(),
    ensures
        !r.undefined(),
        magnitude(a.units() + b.units() - r.units()) <= magnitude(
            a.units() + b.units() - other.units(),
        ),
        r.units() == round_units(a.units() + b.units(), 1),
        magnitude(a.units() + b.units() - r.units()) == magnitude(
            a.units() + b.units() - other.units(),
        ) && r.units() != other.units() ==> r.bits % 2 == 0,
{
    lemma_sum_units(a, b);
    if a.units() + b.units() != 0 {
        lemma_signed_tie_is_even(a.units() + b.units(), other);
    }
    law_rounding_is_nearest(a.units() + b.units(), 1, other);
}

/// A difference is the number nearest to the exact one, halfway between two the one with the even
/// bits.
pub proof fn law_difference_is_nearest(a: Double, b: Double, r: Double, other: Double)
    requires
        call_ensures(Double::minus, (a, b), r),
        a.finite(),
        b.finite(),
        !other.undefined(),
    ensures
        !r.undefined(),
        magnitude(a.units() - b.units() - r.units()) <= magnitude(
            a.units() - b.units() - other.units(),
        ),
        r.units() == round_units(a.units() - b.units(), 1),
        magnitude(a.units() - b.units() - r.units()) == magnitude(
            a.units() - b.units() - other.units(),
        ) && r.units() != other.units() ==> r.bits % 2 == 0,
{
    lemma_difference_units(a, b);
    if a.units() - b.units() != 0 {
        lemma_signed_tie_is_even(a.units() - b.units(), other);
    }
    law_rounding_is_nearest(a.units() - b.units(), 1, other);
}

/// A product has the sign of the two factors together, and a magnitude as near to the exact one as
/// that of any number, halfway between two the one with the even bits.
pub proof fn law_product_is_nearest(a: Double, b: Double, r: Double, other: Double)
    requires
        call_ensures(Double::times, (a, b), r),
        a.finite(),
        b.finite(),
        !other.undefined(),
    ensures
        !r.undefined(),
        r.negative() == (a.negative() != b.negative()),
        ({
            let exact = magnitude(a.units()) * magnitude(b.units());
            let one = pow2(UNIT as nat) as int;
            magnitude(exact - one * magnitude(r.units())) <= magnitude(
                exact - one * magnitude(other.units()),
            )
        }),
        ({
            let exact = magnitude(a.units()) * magnitude(b.units());
            let one = pow2(UNIT as nat) as int;
            magnitude(exact - one * magnitude(r.units())) == magnitude(
                exact - one * magnitude(other.units()),
            ) && magnitude(r.units()) != magnitude(other.units()) ==> r.bits % 2 == 0
        }),
{
    lemma_scale_nonnegative(a.pattern());
    lemma_scale_nonnegative(b.pattern());
    lemma_scale_nonnegative(other.pattern());
    let x = scale(a.pattern());
    let y = scale(b.pattern());
    let exact = x * y;
    assert(exact >= 0) by (nonlinear_arith)
        requires
            exact == x * y,
            x >= 0,
            y >= 0,
    ;
    lemma_pow2_pos(UNIT as nat);
    let one = pow2(UNIT as nat) as int;
    lemma_nearest_exists(exact, one);
    lemma_scale_nonnegative(nearest(exact, one));
    lemma_nearest_is_near(exact, one, other.pattern());
    lemma_signed(a.negative() != b.negative(), nearest(exact, one));
    lemma_tie_is_even(a.negative() != b.negative(), exact, one, other);
}

/// A quotient by a number other than zero has the sign of the two together, and a magnitude as near
/// to the exact one as that of any number, halfway between two the one with the even bits.
pub proof fn law_quotient_is_nearest(a: Double, b: Double, r: Double, other: Double)
    requires
        call_ensures(Double::over, (a, b), r),
        a.finite(),
        b.finite(),
        b.units() != 0,
        !other.undefined(),
    ensures
        !r.undefined(),
        r.negative() == (a.negative() != b.negative()),
        ({
            let dividend = magnitude(a.units()) * pow2(UNIT as nat);
            let divisor = magnitude(b.units());
            magnitude(dividend - divisor * magnitude(r.units())) <= magnitude(
                dividend - divisor * magnitude(other.units()),
            )
        }),
        ({
            let dividend = magnitude(a.units()) * pow2(UNIT as nat);
            let divisor = magnitude(b.units());
            magnitude(dividend - divisor * magnitude(r.units())) == magnitude(
                dividend - divisor * magnitude(other.units()),
            ) && magnitude(r.units()) != magnitude(other.units()) ==> r.bits % 2 == 0
        }),
{
    lemma_scale_nonnegative(a.pattern());
    lemma_scale_nonnegative(b.pattern());
    lemma_scale_nonnegative(other.pattern());
    lemma_pow2_pos(UNIT as nat);
    let one = pow2(UNIT as nat) as int;
    let x = scale(a.pattern());
    let dividend = x * one;
    let divisor = scale(b.pattern());
    assert(dividend >= 0) by (nonlinear_arith)
        requires
            dividend == x * one,
            x >= 0,
            one > 0,
    ;
    lemma_nearest_exists(dividend, divisor);
    lemma_scale_nonnegative(nearest(dividend, divisor));
    lemma_nearest_is_near(dividend, divisor, other.pattern());
    lemma_signed(a.negative() != b.negative(), nearest(dividend, divisor));
    lemma_tie_is_even(a.negative() != b.negative(), dividend, divisor, other);
}

/// A fraction gives the number nearest to it, halfway between two the one with the even bits.
pub proof fn law_fraction_is_nearest(num: u64, den: u64, r: Double, other: Double)
    requires
        call_ensures(Double::from_fraction, (num, den), r),
        num > 0,
        den > 0,
        !other.undefined(),
    ensures
        !r.undefined(),
        ({
            let exact = num * pow2(UNIT as nat);
            magnitude(exact - den * r.units()) <= magnitude(exact - den * other.units())
        }),
        ({
            let exact = num * pow2(UNIT as nat);
            !other.negative() && magnitude(exact - den * r.units()) == magnitude(
                exact - den * other.units(),
            ) && r.units() != other.units() ==> r.bits % 2 == 0
        }),
{
    lemma_pow2_pos(UNIT as nat);
    let one = pow2(UNIT as nat) as int;
    let exact = num * one;
    assert(exact >= 0) by (nonlinear_arith)
        requires
            exact == num * one,
            one > 0,
            num > 0,
    ;
    lemma_nearest_exists(exact, den as int);
    lemma_signed(false, nearest(exact, den as int));
    lemma_tie_is_even(false, exact, den as int, other);
    lemma_scale_nonnegative(nearest(exact, den as int));
    lemma_scale_nonnegative(other.pattern());
    law_rounding_is_nearest(exact, den as int, other);
}

/// A count gives the number nearest to it, halfway between two the one with the even bits.
pub proof fn law_count_is_nearest(n: u64, r: Double, other: Double)
    requires
        call_ensures(Double::from_count, (n,), r),
        !other.undefined(),
    ensures
        !r.undefined(),
        magnitude(n * pow2(UNIT as nat) - r.units()) <= magnitude(
            n * pow2(UNIT as nat) - other.units(),
        ),
        !other.negative() && magnitude(n * pow2(UNIT as nat) - r.units()) == magnitude(
            n * pow2(UNIT as nat) - other.units(),
        ) && r.units() != other.units() ==> r.bits % 2 == 0,
{
    lemma_pow2_pos(UNIT as nat);
    let one = pow2(UNIT as nat) as int;
    let exact = n * one;
    assert(exact >= 0) by (nonlinear_arith)
        requires
            exact == n * one,
            one > 0,
            n >= 0,
    ;
    lemma_nearest_exists(exact, 1);
    lemma_signed(false, nearest(exact, 1));
    lemma_tie_is_even(false, exact, 1, other);
    lemma_scale_nonnegative(nearest(exact, 1));
    lemma_scale_nonnegative(other.pattern());
    law_rounding_is_nearest(exact, 1, other);
}

/// The bits of a number are its sign, its exponent and its fraction: an exponent of all ones stands
/// for an infinity, or with a fraction for what is no number. Any other gives the value of the
/// fraction, with a bit before it unless the exponent is zero, scaled by the exponent.
pub proof fn law_value_of_the_bits(
    x: Double,
    parts: (bool, u64),
    negative: bool,
    exponent: int,
    fraction: int,
)
    requires
        call_ensures(Double::split, (x,), parts),
        0 <= exponent <= 0x7ff,
        0 <= fraction < 0x10_0000_0000_0000,
        x.bits == (if negative {
            0x8000_0000_0000_0000int
        } else {
            0
        }) + exponent * 0x10_0000_0000_0000 + fraction,
    ensures
        parts == (negative, (exponent * 0x10_0000_0000_0000 + fraction) as u64),
        x.negative() == negative,
        x.finite() <==> exponent < 0x7ff,
        x.infinite() <==> exponent == 0x7ff && fraction == 0,
        x.undefined() <==> exponent == 0x7ff && fraction > 0,
        exponent == 0 ==> magnitude(x.units()) == fraction,
        0 < exponent < 0x7ff ==> magnitude(x.units()) == (0x10_0000_0000_0000 + fraction) * pow2(
            (exponent - 1) as nat,
        ),
        x.units() != 0 ==> (x.units() < 0 <==> negative),
        pow2(UNIT as nat) == (Double { bits: 0x3ff0_0000_0000_0000 }).units(),
{
    let b = exponent * 0x10_0000_0000_0000 + fraction;
    assert(x.pattern() == b);
    lemma_scale_nonnegative(b);
    assert(b / HIDDEN as int == exponent);
    assert(b % HIDDEN as int == fraction);
    let one = Double { bits: 0x3ff0_0000_0000_0000 };
    assert(one.pattern() / HIDDEN as int == 1023);
    assert(one.pattern() % HIDDEN as int == 0);
    lemma_pow2_adds(52, 1022);
    lemma2_to64();
    assert(pow2(52) == HIDDEN) by {
        lemma2_to64_rest();
    }
}

/// What is undefined, or has no defined result, gives what is undefined; an infinity outweighs every
/// finite number; a quotient by an infinity is zero, and one by zero infinite. A sum of zero is
/// positive, unless both numbers are negative.
pub proof fn law_special_values(
    a: Double,
    b: Double,
    sum: Double,
    difference: Double,
    product: Double,
    quotient: Double,
    opposite: Double,
    unknown: bool,
)
    requires
        call_ensures(Double::plus, (a, b), sum),
        call_ensures(Double::minus, (a, b), difference),
        call_ensures(Double::times, (a, b), product),
        call_ensures(Double::over, (a, b), quotient),
        call_ensures(Double::negate, (b,), opposite),
        call_ensures(Double::is_undefined, (a,), unknown),
    ensures
        unknown <==> a.undefined(),
        opposite.negative() == !b.negative(),
        opposite.units() == -b.units(),
        opposite.pattern() == b.pattern(),
        forall|r: Double| #[trigger] call_ensures(Double::plus, (a, opposite), r) ==> r == difference,
        a.undefined() || b.undefined() ==> sum.undefined() && product.undefined()
            && quotient.undefined(),
        a.infinite() && b.infinite() ==> quotient.undefined() && (if a.negative() == b.negative() {
            sum == a
        } else {
            sum.undefined()
        }),
        a.infinite() && b.finite() ==> sum == a,
        a.finite() && b.infinite() ==> sum == b && quotient.units() == 0 && quotient.finite(),
        a.infinite() && !b.undefined() && b.units() != 0 || b.infinite() && !a.undefined()
            && a.units() != 0 ==> product.infinite() && product.negative() == (a.negative()
            != b.negative()),
        a.infinite() && b.units() == 0 || b.infinite() && a.units() == 0 ==> product.undefined(),
        a.infinite() && b.finite() ==> quotient.infinite() && quotient.negative() == (a.negative()
            != b.negative()),
        a.finite() && a.units() != 0 && b.finite() && b.units() == 0 ==> quotient.infinite()
            && quotient.negative() == (a.negative() != b.negative()),
        a.finite() && a.units() == 0 && b.finite() && b.units() == 0 ==> quotient.undefined(),
        a.finite() && b.finite() && a.units() + b.units() == 0 ==> sum.bits == (if a.negative()
            && b.negative() {
            0x8000_0000_0000_0000int
        } else {
            0
        }),
{
    assert(scale(0) == 0);
    if !b.undefined() {
        lemma_scale_nonnegative(b.pattern());
        if b.pattern() > 0 {
            lemma_scale_increases(0, b.pattern());
        }
    }
    if !a.undefined() && a.pattern() > 0 {
        lemma_scale_increases(0, a.pattern());
    }
}

/// Comparisons go by the values of the numbers, and nothing compares with what is undefined.
pub proof fn law_comparisons_go_by_value(
    a: Double,
    b: Double,
    greater: bool,
    less: bool,
    same: bool,
)
    requires
        call_ensures(Double::gt, (a, b), greater),
        call_ensures(Double::lt, (a, b), less),
        call_ensures(Double::same_value, (a, b), same),
    ensures
        a.undefined() || b.undefined() ==> !greater && !less && !same,
        !a.undefined() && !b.undefined() ==> (greater <==> a.units() > b.units()) && (less
            <==> a.units() < b.units()) && (same <==> a.units() == b.units()),
{
}

/// What is not above zero becomes zero, and anything else stays.
pub proof fn law_floor_at_zero(x: Double, r: Double)
    requires
        call_ensures(Double::floor_at_zero, (x,), r),
    ensures
        !x.undefined() && x.units() > 0 ==> r == x,
        x.undefined() || x.units() <= 0 ==> r.bits == 0,
{
    assert(scale(0) == 0);
}

/// The value of decimal digits: one more digit at the end makes ten times the number and the digit.
pub proof fn law_digits_have_places(s: Seq<char>, c: char)
    requires
        '0' <= c <= '9',
    ensures
        digits_number(s.push(c)) == 10 * digits_number(s) + (c as int - '0' as int),
        digits_number(Seq::<char>::empty()) == 0,
{
    assert(s.push(c).drop_last() =~= s);
}

/// The decimal notation of a number is the one text of digits, without leading zeros, that has the
/// value of the number.
pub proof fn law_decimal_is_canonical(n: nat)
    ensures
        decimal(n).len() > 0,
        forall|i: int| 0 <= i < decimal(n).len() ==> '0' <= #[trigger] decimal(n)[i] <= '9',
        decimal(n).len() > 1 ==> decimal(n)[0] != '0',
        digits_number(decimal(n)) == n,
    decreases n,
{
    lemma_decimal_digits(n);
    lemma_decimal_number(n);
    if n >= 10 {
        law_decimal_is_canonical(n / 10);
        lemma_decimal_digits(n / 10);
        assert(decimal(n)[0] == decimal(n / 10)[0]);
        if n / 10 < 10 {
            assert(decimal(n / 10)[0] == digit((n / 10) as int));
        } else {
            lemma_decimal_digits(n / 10 / 10);
            assert(decimal(n / 10).len() > 1);
        }
    }
}

/// The text shows `t` thousandths: decimal digits without needless zeros in front, with a point
/// before the last three.
pub open spec fn shows(text: Seq<char>, t: nat) -> bool {
    let point = text.len() - 4;
    &&& point >= 1
    &&& text[point] == '.'
    &&& forall|i: int|
        0 <= i < text.len() && i != point ==> '0' <= #[trigger] text[i] <= '9'
    &&& point > 1 ==> text[0] != '0'
    &&& digits_number(text.take(point) + text.skip(point + 1)) == t
}

/// `t` thousandths are as near to the magnitude `x`, in units of the smallest subnormal, as a whole
/// number of them can be, the even one where two are as near.
pub open spec fn nearest_thousandths(t: nat, x: int) -> bool {
    let one = pow2(UNIT as nat) as int;
    let off = magnitude(1000 * x - t * one);
    2 * off <= one && (2 * off == one ==> t % 2 == 0)
}

proof fn lemma_thousandths(x: Double)
    requires
        x.finite(),
    ensures
        nearest_thousandths(thousandths(x), scale(x.pattern())),
{
    let num = scale(x.pattern()) * 1000;
    let den = pow2(UNIT as nat) as int;
    lemma_pow2_pos(UNIT as nat);
    lemma_scale_nonnegative(x.pattern());
    vstd::arithmetic::div_mod::lemma_fundamental_div_mod(num, den);
    let q = num / den;
    assert(q >= 0) by (nonlinear_arith)
        requires
            num >= 0,
            den > 0,
            q == num / den,
    ;
    assert(den * q == q * den && (q + 1) * den == q * den + den) by (nonlinear_arith);
}

proof fn lemma_shows(t: nat)
    ensures
        shows(decimal(t / 1000) + "."@ + three_digits(t), t),
{
    reveal_strlit(".");
    let whole = decimal(t / 1000);
    let last = three_digits(t);
    let text = whole + "."@ + last;
    law_decimal_is_canonical(t / 1000);
    let point = text.len() - 4;
    assert(text.take(point) =~= whole);
    assert(text.skip(point + 1) =~= last);
    let a = digit((t / 100 % 10) as int);
    let b = digit((t / 10 % 10) as int);
    let c = digit((t % 10) as int);
    assert(whole + last =~= whole.push(a).push(b).push(c));
    law_digits_have_places(whole, a);
    law_digits_have_places(whole.push(a), b);
    law_digits_have_places(whole.push(a).push(b), c);
    assert(10 * (10 * (10 * (t / 1000) + t / 100 % 10) + t / 10 % 10) + t % 10 == t);
    assert forall|i: int| 0 <= i < text.len() && i != point implies '0' <= #[trigger] text[i]
        <= '9' by {
        if i < point {
            assert(text[i] == whole[i]);
        } else {
            assert(text[i] == last[i - point - 1]);
        }
    }
    assert(text[0] == whole[0]);
}

/// The text of a finite number with three decimals shows the thousandths nearest to its magnitude,
/// behind a minus for a negative one.
pub proof fn law_fixed_shows_the_number(x: Double) -> (t: nat)
    requires
        x.finite(),
    ensures
        nearest_thousandths(t, magnitude(x.units())),
        x.negative() ==> fixed(x)[0] == '-' && shows(fixed(x).skip(1), t),
        !x.negative() ==> shows(fixed(x), t),
{
    reveal_strlit("-");
    let t = thousandths(x);
    lemma_scale_nonnegative(x.pattern());
    lemma_thousandths(x);
    lemma_shows(t);
    let shown = decimal(t / 1000) + "."@ + three_digits(t);
    if x.negative() {
        assert(fixed(x).skip(1) =~= shown);
    } else {
        assert(fixed(x) =~= shown);
    }
    t
}

/// Numbers without thousandths are told by name.
pub proof fn law_fixed_names_the_rest(x: Double)
    ensures
        x.undefined() ==> fixed(x) == "NaN"@,
        x.infinite() && !x.negative() ==> fixed(x) == "inf"@,
        x.infinite() && x.negative() ==> fixed(x) == "-"@ + "inf"@,
{
    assert(Seq::<char>::empty() + "inf"@ =~= "inf"@);
}

/// Texts are the same when they have the same characters, and a list of texts is joined in order,
/// with the separator between two of them and nowhere else.
pub proof fn law_texts(
    a: &str,
    b: &str,
    same: bool,
    list: Seq<Seq<char>>,
    last: Seq<char>,
    by: Seq<char>,
)
    requires
        call_ensures(same_text, (a, b), same),
    ensures
        same <==> a@ == b@,
        joined(Seq::empty(), by).len() == 0,
        list.len() == 0 ==> joined(list.push(last), by) == last,
        list.len() > 0 ==> joined(list.push(last), by) == joined(list, by) + by + last,
        forall|words: &Vec<String>, separator: &str, r: String| #[trigger]
            call_ensures(join, (words, separator), r) ==> r@ == joined(
                texts(words@),
                separator@,
            ),
        forall|words: Seq<String>, i: int|
            0 <= i < words.len() ==> #[trigger] texts(words)[i] == words[i]@,
        forall|words: Seq<String>| (#[trigger] texts(words)).len() == words.len(),
{
    assert(list.push(last).drop_last() =~= list);
}

} // verus!
