//! Decimal rendering of integers and fixed-point numbers into strings.
use vstd::prelude::*;

verus! {

/// The text of a single decimal digit.
pub open spec fn digit_text(d: nat) -> Seq<char> {
    if d == 0 {
        "0"@
    } else if d == 1 {
        "1"@
    } else if d == 2 {
        "2"@
    } else if d == 3 {
        "3"@
    } else if d == 4 {
        "4"@
    } else if d == 5 {
        "5"@
    } else if d == 6 {
        "6"@
    } else if d == 7 {
        "7"@
    } else if d == 8 {
        "8"@
    } else {
        "9"@
    }
}

/// The decimal text of a natural number, without leading zeros.
pub open spec fn nat_text(n: nat) -> Seq<char>
    decreases n,
{
    if n < 10 {
        digit_text(n)
    } else {
        nat_text(n / 10) + digit_text(n % 10)
    }
}

/// The decimal text of an integer, with a leading `-` when it is negative.
pub open spec fn int_text(i: int) -> Seq<char> {
    if i < 0 {
        "-"@ + nat_text((-i) as nat)
    } else {
        nat_text(i as nat)
    }
}

/// What is left of `n` once its last `p` decimal digits are dropped.
pub open spec fn drop_digits(n: nat, p: nat) -> nat
    decreases p,
{
    if p == 0 {
        n
    } else {
        drop_digits(n / 10, (p - 1) as nat)
    }
}

/// The last `p` decimal digits of `n`, zero-padded to exactly `p` characters.
pub open spec fn low_digits(n: nat, p: nat) -> Seq<char>
    decreases p,
{
    if p == 0 {
        Seq::empty()
    } else {
        low_digits(n / 10, (p - 1) as nat) + digit_text(n % 10)
    }
}

/// The text of the fixed-point value `v / 10^p`, with exactly `p` digits after the point.
pub open spec fn fixed_text(v: int, p: nat) -> Seq<char> {
    let a: nat = if v < 0 { (-v) as nat } else { v as nat };
    (if v < 0 { "-"@ } else { Seq::empty() }) + nat_text(drop_digits(a, p)) + "."@ + low_digits(a, p)
}

fn digit_str(d: u64) -> (r: &'static str)
    requires
        d < 10,
    ensures
        r@ == digit_text(d as nat),
{
    if d == 0 {
        "0"
    } else if d == 1 {
        "1"
    } else if d == 2 {
        "2"
    } else if d == 3 {
        "3"
    } else if d == 4 {
        "4"
    } else if d == 5 {
        "5"
    } else if d == 6 {
        "6"
    } else if d == 7 {
        "7"
    } else if d == 8 {
        "8"
    } else {
        "9"
    }
}

/// Appends the decimal text of `n` to `s`.
pub fn push_nat(s: &mut String, n: u64)
    ensures
        final(s)@ == old(s)@ + nat_text(n as nat),
    decreases n,
{
    if n >= 10 {
        push_nat(s, n / 10);
    }
    s.append(digit_str(n % 10));
    assert(final(s)@ =~= old(s)@ + nat_text(n as nat));
}

/// Appends the decimal text of `i` to `s`.
pub fn push_int(s: &mut String, i: i64)
    ensures
        final(s)@ == old(s)@ + int_text(i as int),
{
    if i < 0 {
        s.append("-");
        let a: u64 = (0i128 - i as i128) as u64;
        push_nat(s, a);
    } else {
        push_nat(s, i as u64);
    }
    assert(final(s)@ =~= old(s)@ + int_text(i as int));
}

fn push_low_digits(s: &mut String, n: u64, p: u32)
    ensures
        final(s)@ == old(s)@ + low_digits(n as nat, p as nat),
    decreases p,
{
    if p > 0 {
        push_low_digits(s, n / 10, p - 1);
        s.append(digit_str(n % 10));
    }
    assert(final(s)@ =~= old(s)@ + low_digits(n as nat, p as nat));
}

/// Appends the text of the fixed-point value `v / 10^p` to `s`, with `p` digits after the point.
pub fn push_fixed(s: &mut String, v: i64, p: u32)
    ensures
        final(s)@ == old(s)@ + fixed_text(v as int, p as nat),
{
    let ghost s0 = s@;
    let a: u64 = if v < 0 {
        s.append("-");
        (0i128 - v as i128) as u64
    } else {
        v as u64
    };
    let ghost s1 = s@;
    let mut high: u64 = a;
    let mut i: u32 = 0;
    while i < p
        invariant
            i <= p,
            drop_digits(a as nat, p as nat) == drop_digits(high as nat, (p - i) as nat),
        decreases p - i,
    {
        high = high / 10;
        i = i + 1;
    }
    push_nat(s, high);
    s.append(".");
    push_low_digits(s, a, p);
    assert(final(s)@ =~= old(s)@ + fixed_text(v as int, p as nat));
}

} // verus!
