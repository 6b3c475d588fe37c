//! Decimal digits and other small pieces of text.
use vstd::prelude::*;
use vstd::string::StringExecFns;

verus! {

/// The decimal digit of value `d`.
pub open spec fn digit(d: int) -> char {
    (48 + d) as char
}

/// Decimal notation of `n`, without leading zeros.
pub open spec fn decimal(n: nat) -> Seq<char>
    decreases n,
{
    if n < 10 {
        seq![digit(n as int)]
    } else {
        decimal(n / 10).push(digit((n % 10) as int))
    }
}

/// Decimal notation is made of decimal digits.
pub proof fn lemma_decimal_digits(n: nat)
    ensures
        decimal(n).len() > 0,
        forall|i: int| 0 <= i < decimal(n).len() ==> '0' <= #[trigger] decimal(n)[i] <= '9',
    decreases n,
{
    if n >= 10 {
        lemma_decimal_digits(n / 10);
        let before = decimal(n / 10);
        assert forall|i: int| 0 <= i < decimal(n).len() implies '0' <= #[trigger] decimal(n)[i]
            <= '9' by {
            if i < before.len() {
                assert(decimal(n)[i] == before[i]);
            }
        }
    }
}

/// The three last decimal digits of `n`.
pub open spec fn three_digits(n: nat) -> Seq<char> {
    seq![digit((n / 100 % 10) as int), digit((n / 10 % 10) as int), digit((n % 10) as int)]
}

/// The views of a sequence of strings.
pub open spec fn texts(v: Seq<String>) -> Seq<Seq<char>> {
    v.map_values(|s: String| s@)
}

/// Number written by decimal digits, the least significant one first.
pub open spec fn digits_value(ds: Seq<u8>) -> nat
    decreases ds.len(),
{
    if ds.len() == 0 {
        0
    } else {
        ds[0] as nat + 10 * digits_value(ds.skip(1))
    }
}

/// Proper decimal digits, the last of them not a leading zero unless it stands alone.
pub open spec fn digits_wf(ds: Seq<u8>) -> bool {
    &&& ds.len() > 0
    &&& forall|i: int| 0 <= i < ds.len() ==> #[trigger] ds[i] < 10
    &&& ds.len() > 1 ==> ds.last() > 0
}

/// Digits written from the most significant one down are the decimal notation.
proof fn lemma_digits_decimal(ds: Seq<u8>)
    requires
        digits_wf(ds),
    ensures
        decimal(digits_value(ds)) == Seq::new(
            ds.len(),
            |i: int| digit(ds[ds.len() - 1 - i] as int),
        ),
        ds.len() > 1 ==> digits_value(ds) >= 10,
        ds.last() > 0 ==> digits_value(ds) > 0,
    decreases ds.len(),
{
    let rest = ds.skip(1);
    let shown = Seq::new(ds.len(), |i: int| digit(ds[ds.len() - 1 - i] as int));
    if ds.len() == 1 {
        assert(digits_value(rest) == 0);
        assert(shown =~= seq![digit(ds[0] as int)]);
    } else {
        assert(rest.last() == ds.last());
        assert forall|i: int| 0 <= i < rest.len() implies #[trigger] rest[i] < 10 by {
            assert(rest[i] == ds[i + 1]);
        }
        lemma_digits_decimal(rest);
        let n = digits_value(ds);
        assert(n / 10 == digits_value(rest));
        assert(n % 10 == ds[0]);
        assert(shown =~= decimal(digits_value(rest)).push(digit(ds[0] as int)));
    }
}

proof fn lemma_digits_push(ds: Seq<u8>, d: u8)
    ensures
        digits_value(ds.push(d)) == digits_value(ds) + d * vstd::arithmetic::power::pow(
            10,
            ds.len(),
        ),
    decreases ds.len(),
{
    vstd::arithmetic::power::lemma_pow0(10);
    if ds.len() == 0 {
        let one = vstd::arithmetic::power::pow(10, ds.len());
        assert(ds.push(d).skip(1) =~= Seq::<u8>::empty());
        assert(digits_value(ds.push(d).skip(1)) == 0);
        assert(d * one == d) by (nonlinear_arith)
            requires
                one == 1,
        ;
    } else {
        let p = vstd::arithmetic::power::pow(10, (ds.len() - 1) as nat);
        vstd::arithmetic::power::lemma_pow1(10);
        vstd::arithmetic::power::lemma_pow_adds(10, 1, (ds.len() - 1) as nat);
        lemma_digits_push(ds.skip(1), d);
        assert(ds.push(d).skip(1) =~= ds.skip(1).push(d));
        assert(vstd::arithmetic::power::pow(10, ds.len()) == 10 * p);
        assert(10 * (d * p) == d * (10 * p)) by (nonlinear_arith);
    }
}

/// The text of one decimal digit.
fn digit_text(d: u8) -> (r: &'static str)
    requires
        d < 10,
    ensures
        r@ == seq![digit(d as int)],
{
    proof {
        reveal_strlit("0");
        reveal_strlit("1");
        reveal_strlit("2");
        reveal_strlit("3");
        reveal_strlit("4");
        reveal_strlit("5");
        reveal_strlit("6");
        reveal_strlit("7");
        reveal_strlit("8");
        reveal_strlit("9");
    }
    let r: &'static str = match d {
        0 => "0",
        1 => "1",
        2 => "2",
        3 => "3",
        4 => "4",
        5 => "5",
        6 => "6",
        7 => "7",
        8 => "8",
        _ => "9",
    };
    assert(r@ =~= seq![digit(d as int)]);
    r
}

/// Decimal digits of `n`, the least significant one first.
pub fn digits_of(n: u64) -> (ds: Vec<u8>)
    ensures
        digits_wf(ds@),
        digits_value(ds@) == n,
{
    let mut ds: Vec<u8> = Vec::new();
    let mut rest: u64 = n;
    let ghost mut weight: int = 1;
    proof {
        vstd::arithmetic::power::lemma_pow0(10);
    }
    while rest >= 10
        invariant
            forall|i: int| 0 <= i < ds@.len() ==> #[trigger] ds@[i] < 10,
            weight == vstd::arithmetic::power::pow(10, ds@.len()),
            weight > 0,
            n == digits_value(ds@) + rest * weight,
            ds@.len() > 0 ==> rest > 0,
        decreases rest,
    {
        let d: u8 = (rest % 10) as u8;
        proof {
            lemma_digits_push(ds@, d);
            let q = (rest / 10) as int;
            assert(rest * weight == (q * (10 * weight)) + d * weight) by (nonlinear_arith)
                requires
                    rest == 10 * q + d,
            ;
            vstd::arithmetic::power::lemma_pow1(10);
            vstd::arithmetic::power::lemma_pow_adds(10, 1, ds@.len());
            weight = 10 * weight;
        }
        ds.push(d);
        rest = rest / 10;
    }
    proof {
        lemma_digits_push(ds@, rest as u8);
    }
    ds.push(rest as u8);
    ds
}

/// Doubles a number written in digits.
pub fn double_digits(ds: &mut Vec<u8>)
    requires
        digits_wf(old(ds)@),
    ensures
        digits_wf(final(ds)@),
        digits_value(final(ds)@) == 2 * digits_value(old(ds)@),
{
    let mut out: Vec<u8> = Vec::new();
    let mut carry: u8 = 0;
    let mut i: usize = 0;
    let ghost mut weight: int = 1;
    let ghost before = ds@;
    proof {
        vstd::arithmetic::power::lemma_pow0(10);
        assert(before.take(0) =~= Seq::<u8>::empty());
    }
    while i < ds.len()
        invariant
            ds@ == before,
            digits_wf(before),
            i <= before.len(),
            out@.len() == i,
            carry <= 1,
            forall|j: int| 0 <= j < out@.len() ==> #[trigger] out@[j] < 10,
            weight == vstd::arithmetic::power::pow(10, i as nat),
            digits_value(out@) + carry * weight == 2 * digits_value(before.take(i as int)),
            i == before.len() ==> (out@.last() > 0 || carry > 0 || before.len() == 1),
        decreases before.len() - i,
    {
        let d: u8 = ds[i] * 2 + carry;
        let low: u8 = d % 10;
        let high: u8 = d / 10;
        proof {
            lemma_digits_push(out@, low);
            lemma_digits_push(before.take(i as int), before[i as int]);
            assert(before.take(i as int).push(before[i as int]) =~= before.take(i + 1));
            vstd::arithmetic::power::lemma_pow1(10);
            vstd::arithmetic::power::lemma_pow_adds(10, 1, i as nat);
            assert(low * weight + high * (10 * weight) == 2 * (before[i as int] * weight) + carry
                * weight) by (nonlinear_arith)
                requires
                    low + 10 * high == 2 * before[i as int] + carry,
            ;
            weight = 10 * weight;
        }
        out.push(low);
        carry = high;
        i = i + 1;
    }
    assert(before.take(before.len() as int) =~= before);
    if carry > 0 {
        proof {
            lemma_digits_push(out@, carry);
        }
        out.push(carry);
    }
    *ds = out;
}

/// Appends digits, the most significant one first.
pub fn push_digits(out: &mut String, ds: &Vec<u8>)
    requires
        digits_wf(ds@),
    ensures
        final(out)@ == old(out)@ + decimal(digits_value(ds@)),
{
    let ghost shown = Seq::new(ds@.len(), |i: int| digit(ds@[ds@.len() - 1 - i] as int));
    let mut left: usize = ds.len();
    assert(shown.take(0) =~= Seq::<char>::empty());
    assert(old(out)@ + Seq::<char>::empty() =~= old(out)@);
    while left > 0
        invariant
            digits_wf(ds@),
            left <= ds@.len(),
            shown == Seq::new(ds@.len(), |i: int| digit(ds@[ds@.len() - 1 - i] as int)),
            out@ == old(out)@ + shown.take(ds@.len() - left),
        decreases left,
    {
        left = left - 1;
        out.append(digit_text(ds[left]));
        assert(shown.take(ds@.len() - left) =~= shown.take(ds@.len() - left - 1).push(
            digit(ds@[left as int] as int),
        ));
        assert(out@ =~= old(out)@ + shown.take(ds@.len() - left));
    }
    proof {
        lemma_digits_decimal(ds@);
        assert(shown.take(ds@.len() as int) =~= shown);
    }
}

/// Appends the decimal notation of `n`.
pub fn push_decimal(out: &mut String, n: u64)
    ensures
        final(out)@ == old(out)@ + decimal(n as nat),
{
    let ds: Vec<u8> = digits_of(n);
    push_digits(out, &ds);
}

/// Appends the three last decimal digits of `n`.
pub fn push_three_digits(out: &mut String, n: u64)
    ensures
        final(out)@ == old(out)@ + three_digits(n as nat),
{
    out.append(digit_text((n / 100 % 10) as u8));
    out.append(digit_text((n / 10 % 10) as u8));
    out.append(digit_text((n % 10) as u8));
    assert(out@ =~= old(out)@ + three_digits(n as nat));
}

/// Whether two texts are the same.
pub fn same_text(a: &str, b: &str) -> (r: bool)
    ensures
        r == (a@ == b@),
{
    a.to_owned() == b.to_owned()
}

/// Appends a copy of a text to a list.
pub fn push_text(list: &mut Vec<String>, text: &str)
    ensures
        texts(final(list)@) == texts(old(list)@).push(text@),
{
    list.push(text.to_owned());
    assert(texts(list@) =~= texts(old(list)@).push(text@));
}

/// Appends a text to a list.
pub fn push_owned(list: &mut Vec<String>, text: String)
    ensures
        texts(final(list)@) == texts(old(list)@).push(text@),
{
    list.push(text);
    assert(texts(list@) =~= texts(old(list)@).push(text@));
}

/// The texts of a list with a separator between them.
pub open spec fn joined(list: Seq<Seq<char>>, separator: Seq<char>) -> Seq<char>
    decreases list.len(),
{
    if list.len() == 0 {
        Seq::empty()
    } else if list.len() == 1 {
        list[0]
    } else {
        joined(list.drop_last(), separator) + separator + list.last()
    }
}

/// Joins the texts of a list with a separator between them.
pub fn join(list: &Vec<String>, separator: &str) -> (r: String)
    ensures
        r@ == joined(texts(list@), separator@),
{
    let mut out: String = String::new();
    let mut i: usize = 0;
    let ghost all = texts(list@);
    while i < list.len()
        invariant
            i <= list@.len(),
            all == texts(list@),
            out@ == joined(all.take(i as int), separator@),
        decreases list@.len() - i,
    {
        if i > 0 {
            out.append(separator);
        }
        out.append(list[i].as_str());
        proof {
            assert(all.take(i + 1).drop_last() =~= all.take(i as int));
            assert(all.take(i + 1).last() == list@[i as int]@);
            if i == 0 {
                assert(out@ =~= all[0]);
            }
        }
        i = i + 1;
    }
    assert(all.take(all.len() as int) =~= all);
    out
}

} // verus!
