//! Fourteen-period relative strength index.
//!
//! With gains and losses summed over the period and both averaged by the
//! same divisor, `100 - 100 / (1 + RS)` with `RS = avg_gain / avg_loss`
//! equals `100 * G / (G + L)` for the plain sums `G` and `L`; the divisor
//! cancels. The index is given in hundredths, rounded half up.
use vstd::prelude::*;
use vstd::arithmetic::div_mod::{
    lemma_fundamental_div_mod, lemma_fundamental_div_mod_converse, lemma_div_multiples_vanish_quotient,
};
use crate::text::round_div;

verus! {

/// Number of closes the index is computed from.
pub const PERIOD: usize = 14;

/// Largest magnitude of a close, in whatever common unit the closes share.
pub const CLOSE_LIMIT: i128 = 1_000_000_000_000_000_000_000_000_000_000_000_000;

/// The index when no close fell: one hundred, in hundredths.
pub const RSI_MAX: u64 = 10000;

pub open spec fn gain(a: int, b: int) -> nat {
    if b - a >= 0 {
        (b - a) as nat
    } else {
        0
    }
}

pub open spec fn loss(a: int, b: int) -> nat {
    if b - a < 0 {
        (a - b) as nat
    } else {
        0
    }
}

/// Sum of the rises from each close to the next.
pub open spec fn total_gain(c: Seq<int>) -> nat
    decreases c.len(),
{
    if c.len() < 2 {
        0
    } else {
        total_gain(c.drop_last()) + gain(c[c.len() - 2], c[c.len() - 1])
    }
}

/// Sum of the falls from each close to the next, as positive amounts.
pub open spec fn total_loss(c: Seq<int>) -> nat
    decreases c.len(),
{
    if c.len() < 2 {
        0
    } else {
        total_loss(c.drop_last()) + loss(c[c.len() - 2], c[c.len() - 1])
    }
}

/// The index of `c` in hundredths: ten thousand when nothing fell, else
/// `10000 * G / (G + L)` rounded half up.
pub open spec fn rsi_hundredths(c: Seq<int>) -> nat {
    let g = total_gain(c);
    let l = total_loss(c);
    if l == 0 {
        RSI_MAX as nat
    } else {
        round_div(10000 * g, g + l)
    }
}

pub open spec fn ints(c: Seq<i128>) -> Seq<int> {
    c.map_values(|x: i128| x as int)
}

/// `q = (g * 10^4) / t` and the rounding step, by four long-division digits.
fn scaled_ratio(g: u128, t: u128) -> (r: u64)
    requires
        g < t,
        t <= 30_000_000_000_000_000_000_000_000_000_000_000_000,
    ensures
        r as nat == round_div(10000 * g as nat, t as nat),
        r <= RSI_MAX,
{
    let mut q: u128 = 0;
    let mut rem: u128 = g;
    let mut i: u32 = 0;
    let ghost mut p: int = 1;
    while i < 4
        invariant
            0 < t <= 30_000_000_000_000_000_000_000_000_000_000_000_000,
            g < t,
            i <= 4,
            rem < t,
            p == if i == 0 { 1int } else if i == 1 { 10int } else if i == 2 { 100int } else if i == 3 { 1000int } else { 10000int },
            q * t + rem == g * p,
            q < p,
        decreases 4 - i,
    {
        let x = rem * 10;
        let d = x / t;
        let nr = x % t;
        proof {
            lemma_fundamental_div_mod(x as int, t as int);
            assert(x == t * d + nr);
            assert(d < 10) by (nonlinear_arith)
                requires x == t * d + nr, x < 10 * t, nr >= 0, t > 0;
            assert((q * 10 + d) * t + nr == g * (p * 10)) by (nonlinear_arith)
                requires q * t + rem == g * p, x == rem * 10, x == t * d + nr;
            assert(q * 10 + d < p * 10) by (nonlinear_arith)
                requires q < p, d < 10, q >= 0;
        }
        q = q * 10 + d;
        rem = nr;
        i = i + 1;
        proof {
            p = p * 10;
        }
    }
    let up: u128 = if 2 * rem >= t { 1 } else { 0 };
    proof {
        let a = 2 * (10000 * g as int) + t;
        assert(2 * (10000 * g as int) + t == (q + up) * (2 * t) + (2 * rem + t - 2 * up * t))
            by (nonlinear_arith)
            requires q * t + rem == g * 10000;
        lemma_fundamental_div_mod_converse(a, 2 * t, (q + up) as int, 2 * rem + t - 2 * up * t);
    }
    (q + up) as u64
}

/// The index of fourteen closes, in hundredths.
pub fn calculate_rsi(closes: &Vec<i128>) -> (r: u64)
    requires
        closes.len() == PERIOD,
        forall|i: int| 0 <= i < closes.len() ==> -CLOSE_LIMIT <= #[trigger] closes[i] <= CLOSE_LIMIT,
    ensures
        r as nat == rsi_hundredths(ints(closes@)),
        r <= RSI_MAX,
{
    let ghost c = ints(closes@);
    let mut g: u128 = 0;
    let mut l: u128 = 0;
    let mut i: usize = 1;
    while i < closes.len()
        invariant
            closes.len() == PERIOD,
            forall|j: int| 0 <= j < closes.len() ==> -CLOSE_LIMIT <= #[trigger] closes[j] <= CLOSE_LIMIT,
            c == ints(closes@),
            1 <= i <= closes.len(),
            g == total_gain(c.take(i as int)),
            l == total_loss(c.take(i as int)),
            g + l <= (i - 1) * 2 * CLOSE_LIMIT,
        decreases closes.len() - i,
    {
        proof {
            assert(c.take(i + 1).drop_last() =~= c.take(i as int));
        }
        let a = closes[i - 1];
        let b = closes[i];
        if b >= a {
            g = g + (b - a) as u128;
        } else {
            l = l + (a - b) as u128;
        }
        i = i + 1;
    }
    proof {
        assert(c.take(PERIOD as int) =~= c);
    }
    if l == 0 {
        RSI_MAX
    } else {
        scaled_ratio(g, g + l)
    }
}

/// Every close multiplied by `k`.
pub open spec fn scaled(c: Seq<int>, k: int) -> Seq<int> {
    c.map_values(|x: int| k * x)
}

proof fn lemma_no_fall_no_loss(c: Seq<int>)
    requires
        forall|i: int| 0 < i < c.len() ==> c[i - 1] <= #[trigger] c[i],
    ensures
        total_loss(c) == 0,
    decreases c.len(),
{
    if c.len() >= 2 {
        let d = c.drop_last();
        assert forall|i: int| 0 < i < d.len() implies d[i - 1] <= #[trigger] d[i] by {
            assert(c[i - 1] <= c[i]);
        }
        lemma_no_fall_no_loss(d);
        assert(c[c.len() - 2] <= c[c.len() - 1]);
    }
}

/// Closes that never fall give an index of exactly one hundred.
pub proof fn lemma_rising_closes_rsi_max(c: Seq<int>)
    requires
        forall|i: int| 0 < i < c.len() ==> c[i - 1] <= #[trigger] c[i],
    ensures
        rsi_hundredths(c) == RSI_MAX,
{
    lemma_no_fall_no_loss(c);
}

proof fn lemma_scaled_sums(c: Seq<int>, k: int)
    requires
        k > 0,
    ensures
        total_gain(scaled(c, k)) == k * total_gain(c),
        total_loss(scaled(c, k)) == k * total_loss(c),
    decreases c.len(),
{
    if c.len() >= 2 {
        let n = c.len();
        assert(scaled(c, k).drop_last() =~= scaled(c.drop_last(), k));
        lemma_scaled_sums(c.drop_last(), k);
        let a = c[n - 2];
        let b = c[n - 1];
        assert(scaled(c, k)[n - 2] == k * a);
        assert(scaled(c, k)[n - 1] == k * b);
        assert(gain(k * a, k * b) == k * gain(a, b)) by (nonlinear_arith)
            requires k > 0;
        assert(loss(k * a, k * b) == k * loss(a, b)) by (nonlinear_arith)
            requires k > 0;
        assert(k * total_gain(c.drop_last()) + k * gain(a, b)
            == k * (total_gain(c.drop_last()) + gain(a, b))) by (nonlinear_arith);
        assert(k * total_loss(c.drop_last()) + k * loss(a, b)
            == k * (total_loss(c.drop_last()) + loss(a, b))) by (nonlinear_arith);
        let sc = scaled(c, k);
        assert(total_gain(sc) == total_gain(sc.drop_last()) + gain(sc[n - 2], sc[n - 1]));
        assert(total_loss(sc) == total_loss(sc.drop_last()) + loss(sc[n - 2], sc[n - 1]));
        assert(total_gain(c) == total_gain(c.drop_last()) + gain(a, b));
        assert(total_loss(c) == total_loss(c.drop_last()) + loss(a, b));
        assert(total_gain(sc) == k * total_gain(c.drop_last()) + k * gain(a, b));
    } else {
        assert(total_gain(c) == 0);
        assert(total_gain(scaled(c, k)) == 0);
        assert(scaled(c, k).len() == c.len());
    }
}

/// Multiplying every close by the same positive factor leaves the index
/// unchanged: gains and losses scale alike.
pub proof fn lemma_rsi_scale_invariant(c: Seq<int>, k: int)
    requires
        k > 0,
    ensures
        rsi_hundredths(scaled(c, k)) == rsi_hundredths(c),
{
    lemma_scaled_sums(c, k);
    let g: int = total_gain(c) as int;
    let l: int = total_loss(c) as int;
    if l != 0 {
        assert(k * l != 0) by (nonlinear_arith)
            requires k > 0, l > 0;
        let a: int = 2 * (10000 * g) + (g + l);
        let d: int = 2 * (g + l);
        assert(2 * (10000 * (k * g)) + (k * g + k * l) == k * a) by (nonlinear_arith)
            requires a == 2 * (10000 * g) + (g + l);
        assert(2 * (k * g + k * l) == k * d) by (nonlinear_arith)
            requires d == 2 * (g + l);
        assert(g >= 0 && l > 0);
        lemma_div_multiples_vanish_quotient(k, a, d);
        assert(total_gain(scaled(c, k)) == k * g);
        assert(total_loss(scaled(c, k)) == k * l);
    }
}

} // verus!
