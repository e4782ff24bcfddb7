//! Decimal rendering of integers and of fixed-point coin amounts.
use vstd::prelude::*;

verus! {

/// Base units in one coin: amounts carry eight decimal places.
pub const UNITS_PER_COIN: u64 = 100_000_000;

/// Number of decimal places of an amount.
pub const AMOUNT_DECIMALS: u64 = 8;

/// The ASCII character of a decimal digit.
pub open spec fn decimal_digit(d: int) -> char {
    seq!['0', '1', '2', '3', '4', '5', '6', '7', '8', '9'][d]
}

/// Decimal text of a natural number, without leading zeros.
pub open spec fn decimal_text(n: nat) -> Seq<char>
    decreases n,
{
    if n < 10 {
        seq![decimal_digit(n as int)]
    } else {
        decimal_text(n / 10).push(decimal_digit((n % 10) as int))
    }
}

/// Decimal text of an integer, with a leading `-` when it is negative.
pub open spec fn signed_decimal_text(v: int) -> Seq<char> {
    if v < 0 {
        seq!['-'] + decimal_text((-v) as nat)
    } else {
        decimal_text(v as nat)
    }
}

/// The last `w` decimal digits of `n`, padded with leading zeros.
pub open spec fn padded_text(n: nat, w: nat) -> Seq<char>
    decreases w,
{
    if w == 0 {
        seq![]
    } else {
        padded_text(n / 10, (w - 1) as nat).push(decimal_digit((n % 10) as int))
    }
}

/// The `w`-digit fraction `f`, with its trailing zeros removed.
pub open spec fn fraction_text(f: nat, w: nat) -> Seq<char>
    decreases w,
{
    if w > 0 && f % 10 == 0 {
        fraction_text(f / 10, (w - 1) as nat)
    } else {
        padded_text(f, w)
    }
}

/// Text of an amount in base units as a decimal number of coins. A whole
/// amount is written without a fraction, or with `.0` when `point_zero`
/// holds; otherwise the fraction follows a point, without trailing zeros.
pub open spec fn amount_text(units: nat, point_zero: bool) -> Seq<char> {
    let whole = units / (UNITS_PER_COIN as nat);
    let frac = units % (UNITS_PER_COIN as nat);
    if frac == 0 {
        if point_zero {
            decimal_text(whole) + seq!['.', '0']
        } else {
            decimal_text(whole)
        }
    } else {
        decimal_text(whole) + seq!['.'] + fraction_text(frac, AMOUNT_DECIMALS as nat)
    }
}

/// Appends one decimal digit.
fn push_digit(out: &mut String, d: u64)
    requires
        d < 10,
    ensures
        final(out)@ == old(out)@.push(decimal_digit(d as int)),
{
    let s: &str = if d == 0 {
        "0"
    } else if d == 1 {
        "1"
    } else if d == 2 {
        "2"
    } else if d == 3 {
        "3"
    } else if d == 4 {
        "4"
    } else if d == 5 {
        "5"
    } else if d == 6 {
        "6"
    } else if d == 7 {
        "7"
    } else if d == 8 {
        "8"
    } else {
        "9"
    };
    proof {
        reveal_strlit("0");
        reveal_strlit("1");
        reveal_strlit("2");
        reveal_strlit("3");
        reveal_strlit("4");
        reveal_strlit("5");
        reveal_strlit("6");
        reveal_strlit("7");
        reveal_strlit("8");
        reveal_strlit("9");
    }
    out.append(s);
    assert(out@ =~= old(out)@.push(decimal_digit(d as int)));
}

/// Appends the decimal text of `n`.
pub fn push_decimal(out: &mut String, n: u64)
    ensures
        final(out)@ == old(out)@ + decimal_text(n as nat),
    decreases n,
{
    if n >= 10 {
        push_decimal(out, n / 10);
    }
    push_digit(out, n % 10);
    assert(out@ =~= old(out)@ + decimal_text(n as nat));
}

/// Appends the last `w` decimal digits of `n`, padded with leading zeros.
fn push_padded(out: &mut String, n: u64, w: u64)
    ensures
        final(out)@ == old(out)@ + padded_text(n as nat, w as nat),
    decreases w,
{
    if w > 0 {
        push_padded(out, n / 10, w - 1);
        push_digit(out, n % 10);
    }
    assert(out@ =~= old(out)@ + padded_text(n as nat, w as nat));
}

/// Appends the decimal text of `v`, with a leading `-` when it is negative.
pub fn push_signed_decimal(out: &mut String, v: i64)
    ensures
        final(out)@ == old(out)@ + signed_decimal_text(v as int),
{
    if v < 0 {
        out.append("-");
        proof {
            reveal_strlit("-");
        }
        let magnitude: u64 = (0 - (v as i128)) as u64;
        push_decimal(out, magnitude);
    } else {
        push_decimal(out, v as u64);
    }
    assert(out@ =~= old(out)@ + signed_decimal_text(v as int));
}

/// Appends the text of an amount in base units as a decimal number of coins
/// (see `amount_text`).
pub fn push_amount(out: &mut String, units: u64, point_zero: bool)
    ensures
        final(out)@ == old(out)@ + amount_text(units as nat, point_zero),
{
    let whole: u64 = units / UNITS_PER_COIN;
    let frac: u64 = units % UNITS_PER_COIN;
    push_decimal(out, whole);
    proof {
        reveal_strlit(".");
        reveal_strlit(".0");
    }
    if frac == 0 {
        if point_zero {
            out.append(".0");
        }
    } else {
        out.append(".");
        let mut f: u64 = frac;
        let mut w: u64 = AMOUNT_DECIMALS;
        while w > 0 && f % 10 == 0
            invariant
                fraction_text(f as nat, w as nat) == fraction_text(
                    frac as nat,
                    AMOUNT_DECIMALS as nat,
                ),
            decreases w,
        {
            f = f / 10;
            w = w - 1;
        }
        push_padded(out, f, w);
    }
    assert(out@ =~= old(out)@ + amount_text(units as nat, point_zero));
}

} // verus!
