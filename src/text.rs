//! Decimal digits and fixed-point text.
use vstd::prelude::*;
use vstd::string::StringExecFns;

verus! {

/// `10^n`.
pub open spec fn pow10(n: nat) -> nat
    decreases n,
{
    if n == 0 {
        1
    } else {
        10 * pow10((n - 1) as nat)
    }
}

pub open spec fn is_digit(c: char) -> bool {
    '0' <= c && c <= '9'
}

/// The value of one decimal digit character.
pub open spec fn digit_value(c: char) -> nat {
    ((c as u32) - 48) as nat
}

/// The character of a digit `d < 10`.
pub open spec fn digit_char(d: nat) -> char {
    if d == 0 { '0' }
    else if d == 1 { '1' }
    else if d == 2 { '2' }
    else if d == 3 { '3' }
    else if d == 4 { '4' }
    else if d == 5 { '5' }
    else if d == 6 { '6' }
    else if d == 7 { '7' }
    else if d == 8 { '8' }
    else { '9' }
}

/// Shortest decimal text of `n` (`"0"` for zero).
pub open spec fn nat_text(n: nat) -> Seq<char>
    decreases n,
{
    if n < 10 {
        seq![digit_char(n)]
    } else {
        nat_text(n / 10).push(digit_char(n % 10))
    }
}

/// The last `places` decimal digits of `n`, zero-padded on the left.
pub open spec fn digits_text(n: nat, places: nat) -> Seq<char>
    decreases places,
{
    if places == 0 {
        Seq::empty()
    } else {
        digits_text(n / 10, (places - 1) as nat).push(digit_char(n % 10))
    }
}

/// Text of the number `units / 10^places`, with exactly `places` digits after
/// the point and a leading minus sign when `negative` holds.
pub open spec fn fixed_text(negative: bool, units: nat, places: nat) -> Seq<char> {
    let sign: Seq<char> = if negative { seq!['-'] } else { Seq::empty() };
    let whole = sign + nat_text(units / pow10(places));
    if places == 0 {
        whole
    } else {
        whole + seq!['.'] + digits_text(units % pow10(places), places)
    }
}

/// `a / b` rounded to the nearest integer, halves rounded up.
pub open spec fn round_div(a: nat, b: nat) -> nat
    recommends
        b > 0,
{
    ((2 * a + b) / (2 * b)) as nat
}

pub fn pow10_exec(n: u32) -> (r: u128)
    requires
        n <= 38,
    ensures
        r == pow10(n as nat),
{
    let mut r: u128 = 1;
    let mut i: u32 = 0;
    while i < n
        invariant
            i <= n <= 38,
            r == pow10(i as nat),
        decreases n - i,
    {
        proof {
            lemma_pow10_monotone((i + 1) as nat, 38);
            lemma_pow10_38();
        }
        r = r * 10;
        i = i + 1;
    }
    r
}

pub proof fn lemma_pow10_38()
    ensures
        pow10(38) == 100_000_000_000_000_000_000_000_000_000_000_000_000,
{
    reveal_with_fuel(pow10, 39);
}

pub proof fn lemma_pow10_monotone(a: nat, b: nat)
    requires
        a <= b,
    ensures
        pow10(a) <= pow10(b),
        pow10(a) >= 1,
    decreases b,
{
    if b > a {
        lemma_pow10_monotone(a, (b - 1) as nat);
    } else if a > 0 {
        lemma_pow10_monotone((a - 1) as nat, (a - 1) as nat);
    }
}

/// The one-character text of a digit.
pub fn digit_str(d: u128) -> (r: &'static str)
    requires
        d < 10,
    ensures
        r@ == seq![digit_char(d as nat)],
{
    proof {
        reveal_strlit("0");
        reveal_strlit("1");
        reveal_strlit("2");
        reveal_strlit("3");
        reveal_strlit("4");
        reveal_strlit("5");
        reveal_strlit("6");
        reveal_strlit("7");
        reveal_strlit("8");
        reveal_strlit("9");
    }
    if d == 0 { "0" }
    else if d == 1 { "1" }
    else if d == 2 { "2" }
    else if d == 3 { "3" }
    else if d == 4 { "4" }
    else if d == 5 { "5" }
    else if d == 6 { "6" }
    else if d == 7 { "7" }
    else if d == 8 { "8" }
    else { "9" }
}

/// Appends the shortest decimal text of `n`.
pub fn push_nat(out: &mut String, n: u128)
    ensures
        final(out)@ == old(out)@ + nat_text(n as nat),
    decreases n,
{
    if n >= 10 {
        push_nat(out, n / 10);
    }
    out.append(digit_str(n % 10));
    proof {
        assert(final(out)@ =~= old(out)@ + nat_text(n as nat));
    }
}

/// Appends the last `places` digits of `n`, zero-padded.
pub fn push_digits(out: &mut String, n: u128, places: u32)
    ensures
        final(out)@ == old(out)@ + digits_text(n as nat, places as nat),
    decreases places,
{
    if places > 0 {
        push_digits(out, n / 10, places - 1);
        out.append(digit_str(n % 10));
    }
    proof {
        assert(final(out)@ =~= old(out)@ + digits_text(n as nat, places as nat));
    }
}

/// Fixed-point text of `units / 10^places`.
pub fn format_fixed(negative: bool, units: u128, places: u32) -> (r: String)
    requires
        places <= 38,
    ensures
        r@ == fixed_text(negative, units as nat, places as nat),
{
    let scale = pow10_exec(places);
    proof {
        lemma_pow10_monotone(0, places as nat);
    }
    let mut out = String::new();
    if negative {
        out.append("-");
    }
    push_nat(&mut out, units / scale);
    if places > 0 {
        out.append(".");
        push_digits(&mut out, units % scale, places);
    }
    proof {
        reveal_strlit("-");
        reveal_strlit(".");
        assert(out@ =~= fixed_text(negative, units as nat, places as nat));
    }
    out
}

} // verus!
