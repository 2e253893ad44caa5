//! The text of each reported field, read from exchange documents.
use vstd::prelude::*;
use vstd::string::StringExecFns;
use crate::decimal::{Decimal, decimal_of, parse_decimal};
use crate::json::{Json, member, element, member_text, element_text};
use crate::rsi::{PERIOD, CLOSE_LIMIT, calculate_rsi, rsi_hundredths, ints};
use crate::text::{fixed_text, round_div, pow10, pow10_exec, format_fixed, lemma_pow10_monotone};

verus! {

/// Text of a field whose value could not be had.
pub open spec fn placeholder() -> Seq<char> {
    seq!['N', '/', 'A']
}

pub fn placeholder_text() -> (r: String)
    ensures
        r@ == placeholder(),
{
    proof {
        reveal_strlit("N/A");
    }
    "N/A".to_owned()
}

/// The text itself, or the placeholder when there is none.
pub open spec fn or_placeholder(t: Option<Seq<char>>) -> Seq<char> {
    match t {
        Some(s) => s,
        None => placeholder(),
    }
}

/// A number read from text, zero where the text is not a number.
pub open spec fn decimal_or_zero(t: Seq<char>) -> Decimal {
    match decimal_of(t) {
        Some(d) => d,
        None => Decimal { negative: false, mantissa: 0, scale: 0 },
    }
}

/// `d` as a percentage with four digits after the point, and a `%` sign.
pub open spec fn percent_text(d: Decimal) -> Seq<char> {
    fixed_text(d.below_zero(), round_div((d.mantissa * pow10(6)) as nat, pow10(d.scale as nat)), 4)
        + seq!['%']
}

/// `long / short` with two digits after the point; zero when `short` is zero.
pub open spec fn ratio_text(long: Decimal, short: Decimal) -> Seq<char> {
    if short.is_zero() {
        fixed_text(false, 0, 2)
    } else {
        fixed_text(
            long.mantissa > 0 && long.negative != short.negative,
            round_div(
                (long.mantissa * pow10(short.scale as nat) * 100) as nat,
                (short.mantissa * pow10(long.scale as nat)) as nat,
            ),
            2,
        )
    }
}

/// Spot price: the `price` member.
pub open spec fn spot_price_field(doc: Option<Json>) -> Seq<char> {
    match doc {
        Some(j) => or_placeholder(member_text(j, "price"@)),
        None => placeholder(),
    }
}

/// Funding rate: the `lastFundingRate` member as a percentage.
pub open spec fn funding_rate_field(doc: Option<Json>) -> Seq<char> {
    match doc {
        Some(j) => match member_text(j, "lastFundingRate"@) {
            Some(t) => percent_text(decimal_or_zero(t)),
            None => placeholder(),
        },
        None => placeholder(),
    }
}

/// 24-hour change: the `priceChangePercent` member with a `%` sign.
pub open spec fn change_field(doc: Option<Json>) -> Seq<char> {
    match doc {
        Some(j) => match member_text(j, "priceChangePercent"@) {
            Some(t) => t + seq!['%'],
            None => placeholder(),
        },
        None => placeholder(),
    }
}

/// Long/short ratio: from the first entry of the array, when it has both
/// account shares as text.
pub open spec fn long_short_field(doc: Option<Json>) -> Seq<char> {
    match doc {
        Some(j) => match element(j, 0) {
            Some(e) => match (member_text(e, "longAccount"@), member_text(e, "shortAccount"@)) {
                (Some(l), Some(s)) => ratio_text(decimal_or_zero(l), decimal_or_zero(s)),
                _ => placeholder(),
            },
            None => placeholder(),
        },
        None => placeholder(),
    }
}

/// Coinbase spot price: `data.amount`.
pub open spec fn coinbase_price_of(doc: Option<Json>) -> Option<Seq<char>> {
    match doc {
        Some(j) => match member(j, "data"@) {
            Some(d) => member_text(d, "amount"@),
            None => None,
        },
        None => None,
    }
}

/// OKX spot price: `data[0].last`.
pub open spec fn okx_price_of(doc: Option<Json>) -> Option<Seq<char>> {
    match doc {
        Some(j) => match member(j, "data"@) {
            Some(d) => match element(d, 0) {
                Some(e) => member_text(e, "last"@),
                None => None,
            },
            None => None,
        },
        None => None,
    }
}

pub fn decimal_or_zero_exec(t: &str) -> (r: Decimal)
    ensures
        r == decimal_or_zero(t@),
        r.wf(),
{
    match parse_decimal(t) {
        Some(d) => d,
        None => Decimal::zero(),
    }
}

/// Formats a decimal as a percentage.
pub fn format_percent(d: Decimal) -> (r: String)
    requires
        d.wf(),
    ensures
        r@ == percent_text(d),
{
    let num: u128 = d.mantissa as u128 * 1_000_000;
    let den = pow10_exec(d.scale);
    proof {
        lemma_pow10_monotone(0, d.scale as nat);
        lemma_pow10_monotone(d.scale as nat, 18);
        reveal_with_fuel(pow10, 19);
        assert(pow10(18) == 1_000_000_000_000_000_000);
        assert(pow10(6) == 1_000_000);
    }
    let units = (2 * num + den) / (2 * den);
    let mut r = format_fixed(d.below_zero_exec(), units, 4);
    r.append("%");
    proof {
        reveal_strlit("%");
    }
    r
}

/// Formats `long / short` to two places.
pub fn format_ratio(long: Decimal, short: Decimal) -> (r: String)
    requires
        long.wf(),
        short.wf(),
    ensures
        r@ == ratio_text(long, short),
{
    if short.mantissa == 0 {
        return format_fixed(false, 0, 2);
    }
    let ps = pow10_exec(short.scale);
    let pl = pow10_exec(long.scale);
    proof {
        lemma_pow10_monotone(0, short.scale as nat);
        lemma_pow10_monotone(0, long.scale as nat);
        lemma_pow10_monotone(short.scale as nat, 18);
        lemma_pow10_monotone(long.scale as nat, 18);
        reveal_with_fuel(pow10, 19);
        assert(pow10(18) == 1_000_000_000_000_000_000);
        assert(long.mantissa * ps <= 1_000_000_000_000_000_000_000_000_000_000_000_000)
            by (nonlinear_arith)
            requires long.mantissa < 1_000_000_000_000_000_000, ps <= 1_000_000_000_000_000_000;
        assert(short.mantissa * pl <= 1_000_000_000_000_000_000_000_000_000_000_000_000)
            by (nonlinear_arith)
            requires short.mantissa < 1_000_000_000_000_000_000, pl <= 1_000_000_000_000_000_000;
        assert(short.mantissa * pl > 0) by (nonlinear_arith)
            requires short.mantissa > 0, pl >= 1;
    }
    let num: u128 = long.mantissa as u128 * ps * 100;
    let den: u128 = short.mantissa as u128 * pl;
    let units = (2 * num + den) / (2 * den);
    format_fixed(long.mantissa > 0 && long.negative != short.negative, units, 2)
}

/// The closes of a kline list: the text at index 4 of each entry, read as a
/// decimal; entries without one are left out.
pub open spec fn closes_of(items: Seq<Json>) -> Seq<Decimal>
    decreases items.len(),
{
    if items.len() == 0 {
        Seq::empty()
    } else {
        let rest = closes_of(items.drop_last());
        match element_text(items.last(), 4) {
            Some(t) => match decimal_of(t) {
                Some(d) => rest.push(d),
                None => rest,
            },
            None => rest,
        }
    }
}

/// The largest number of fractional digits among `ds`.
pub open spec fn max_scale(ds: Seq<Decimal>) -> nat
    decreases ds.len(),
{
    if ds.len() == 0 {
        0
    } else {
        let m = max_scale(ds.drop_last());
        if ds.last().scale > m {
            ds.last().scale as nat
        } else {
            m
        }
    }
}

/// The decimals as integers in units of their finest common step.
pub open spec fn aligned(ds: Seq<Decimal>) -> Seq<int> {
    let f = max_scale(ds);
    ds.map_values(|d: Decimal| d.signed() * pow10((f - d.scale) as nat))
}

/// RSI: from the closes of the kline list, when there are exactly fourteen.
pub open spec fn rsi_field(doc: Option<Json>) -> Seq<char> {
    match doc {
        Some(Json::Array(items)) => {
            let c = closes_of(items@);
            if c.len() == PERIOD {
                fixed_text(false, rsi_hundredths(aligned(c)), 2)
            } else {
                placeholder()
            }
        },
        _ => placeholder(),
    }
}

proof fn lemma_max_scale_bounds(ds: Seq<Decimal>)
    requires
        forall|i: int| 0 <= i < ds.len() ==> (#[trigger] ds[i]).wf(),
    ensures
        max_scale(ds) <= 18,
        forall|i: int| 0 <= i < ds.len() ==> (#[trigger] ds[i]).scale <= max_scale(ds),
    decreases ds.len(),
{
    if ds.len() > 0 {
        let d = ds.drop_last();
        assert forall|i: int| 0 <= i < d.len() implies (#[trigger] d[i]).wf() by {
            assert(d[i] == ds[i]);
        }
        lemma_max_scale_bounds(d);
        assert forall|i: int| 0 <= i < ds.len() implies (#[trigger] ds[i]).scale <= max_scale(ds) by {
            if i < ds.len() - 1 {
                assert(d[i] == ds[i]);
            }
        }
    }
}

proof fn lemma_closes_len(items: Seq<Json>)
    ensures
        closes_of(items).len() <= items.len(),
    decreases items.len(),
{
    if items.len() > 0 {
        lemma_closes_len(items.drop_last());
    }
}

/// A kline list of any length but fourteen gives no RSI, when it is shorter
/// than that or every entry carries a readable close.
pub proof fn lemma_kline_count_not_period(doc: Json)
    requires
        doc is Array,
        doc->Array_0@.len() != PERIOD,
        doc->Array_0@.len() < PERIOD || closes_of(doc->Array_0@).len() == doc->Array_0@.len(),
    ensures
        rsi_field(Some(doc)) == placeholder(),
{
    lemma_closes_len(doc->Array_0@);
}

/// Collects the closes of a kline list.
pub fn kline_closes(items: &Vec<Json>) -> (r: Vec<Decimal>)
    ensures
        r@ == closes_of(items@),
        forall|i: int| 0 <= i < r.len() ==> (#[trigger] r[i]).wf(),
{
    let mut r: Vec<Decimal> = Vec::new();
    let mut i: usize = 0;
    while i < items.len()
        invariant
            i <= items.len(),
            r@ == closes_of(items@.take(i as int)),
            forall|j: int| 0 <= j < r.len() ==> (#[trigger] r[j]).wf(),
        decreases items.len() - i,
    {
        proof {
            assert(items@.take(i + 1).drop_last() =~= items@.take(i as int));
            assert(items@.take(i + 1).last() == items@[i as int]);
        }
        match items[i].at(4) {
            Some(v) => match v.as_str() {
                Some(t) => match parse_decimal(t.as_str()) {
                    Some(d) => r.push(d),
                    None => {},
                },
                None => {},
            },
            None => {},
        }
        i = i + 1;
    }
    assert(items@.take(items.len() as int) =~= items@);
    r
}

/// The decimals as integers in units of their finest common step.
pub fn align(ds: &Vec<Decimal>) -> (r: Vec<i128>)
    requires
        forall|i: int| 0 <= i < ds.len() ==> (#[trigger] ds[i]).wf(),
    ensures
        r.len() == ds.len(),
        ints(r@) == aligned(ds@),
        forall|i: int| 0 <= i < r.len() ==> -CLOSE_LIMIT <= #[trigger] r[i] <= CLOSE_LIMIT,
{
    let mut f: u32 = 0;
    let mut i: usize = 0;
    while i < ds.len()
        invariant
            i <= ds.len(),
            forall|j: int| 0 <= j < ds.len() ==> (#[trigger] ds[j]).wf(),
            f == max_scale(ds@.take(i as int)),
        decreases ds.len() - i,
    {
        proof {
            assert(ds@.take(i + 1).drop_last() =~= ds@.take(i as int));
        }
        if ds[i].scale > f {
            f = ds[i].scale;
        }
        i = i + 1;
    }
    proof {
        assert(ds@.take(ds.len() as int) =~= ds@);
        lemma_max_scale_bounds(ds@);
        reveal_with_fuel(pow10, 19);
        assert(pow10(18) == 1_000_000_000_000_000_000);
    }
    let mut r: Vec<i128> = Vec::new();
    let mut i: usize = 0;
    while i < ds.len()
        invariant
            i <= ds.len(),
            r.len() == i,
            f == max_scale(ds@),
            f <= 18,
            pow10(18) == 1_000_000_000_000_000_000,
            forall|j: int| 0 <= j < ds.len() ==> (#[trigger] ds[j]).wf(),
            forall|j: int| 0 <= j < ds.len() ==> (#[trigger] ds[j]).scale <= f,
            forall|j: int| 0 <= j < i ==> #[trigger] r[j] as int == aligned(ds@)[j],
            forall|j: int| 0 <= j < i ==> -CLOSE_LIMIT <= #[trigger] r[j] <= CLOSE_LIMIT,
        decreases ds.len() - i,
    {
        let d = ds[i];
        let p = pow10_exec(f - d.scale);
        proof {
            lemma_pow10_monotone((f - d.scale) as nat, 18);
            assert(d.mantissa * p <= CLOSE_LIMIT) by (nonlinear_arith)
                requires d.mantissa < 1_000_000_000_000_000_000, p <= 1_000_000_000_000_000_000;
        }
        let m = d.mantissa as i128 * p as i128;
        let v = if d.negative { -m } else { m };
        proof {
            assert(aligned(ds@)[i as int] == d.signed() * pow10((f - d.scale) as nat));
            assert(v as int == d.signed() * p) by (nonlinear_arith)
                requires
                    m == d.mantissa * p,
                    v == (if d.negative { -(m as int) } else { m as int }),
                    d.signed() == (if d.negative { -(d.mantissa as int) } else { d.mantissa as int });
        }
        r.push(v);
        proof {
            assert(r[i as int] == v);
        }
        i = i + 1;
    }
    assert(ints(r@) =~= aligned(ds@));
    r
}

/// The RSI text of a kline list.
pub fn rsi_text(doc: &Option<Json>) -> (r: String)
    ensures
        r@ == rsi_field(*doc),
{
    match doc {
        Some(j) => match j.as_array() {
            Some(items) => {
                let closes = kline_closes(items);
                if closes.len() == PERIOD {
                    let a = align(&closes);
                    let v = calculate_rsi(&a);
                    format_fixed(false, v as u128, 2)
                } else {
                    placeholder_text()
                }
            },
            None => placeholder_text(),
        },
        None => placeholder_text(),
    }
}

/// The spot price text of a Binance price document.
pub fn spot_price_text(doc: &Option<Json>) -> (r: String)
    ensures
        r@ == spot_price_field(*doc),
{
    match doc {
        Some(j) => match j.member_str("price") {
            Some(t) => t.clone(),
            None => placeholder_text(),
        },
        None => placeholder_text(),
    }
}

/// The funding rate text of a premium index document.
pub fn funding_rate_text(doc: &Option<Json>) -> (r: String)
    ensures
        r@ == funding_rate_field(*doc),
{
    match doc {
        Some(j) => match j.member_str("lastFundingRate") {
            Some(t) => format_percent(decimal_or_zero_exec(t.as_str())),
            None => placeholder_text(),
        },
        None => placeholder_text(),
    }
}

/// The 24-hour change text of a ticker document.
pub fn change_text(doc: &Option<Json>) -> (r: String)
    ensures
        r@ == change_field(*doc),
{
    match doc {
        Some(j) => match j.member_str("priceChangePercent") {
            Some(t) => {
                let mut r = t.clone();
                r.append("%");
                proof {
                    reveal_strlit("%");
                }
                r
            },
            None => placeholder_text(),
        },
        None => placeholder_text(),
    }
}

/// The long/short ratio text of an account ratio document.
pub fn long_short_text(doc: &Option<Json>) -> (r: String)
    ensures
        r@ == long_short_field(*doc),
{
    match doc {
        Some(j) => match j.at(0) {
            Some(e) => match (e.member_str("longAccount"), e.member_str("shortAccount")) {
                (Some(l), Some(s)) => format_ratio(
                    decimal_or_zero_exec(l.as_str()),
                    decimal_or_zero_exec(s.as_str()),
                ),
                _ => placeholder_text(),
            },
            None => placeholder_text(),
        },
        None => placeholder_text(),
    }
}

/// The price in a Coinbase spot document.
pub fn coinbase_price(doc: &Option<Json>) -> (r: Option<String>)
    ensures
        coinbase_price_of(*doc) == match r {
            Some(s) => Some(s@),
            None => None::<Seq<char>>,
        },
{
    match doc {
        Some(j) => match j.get("data") {
            Some(d) => match d.member_str("amount") {
                Some(t) => Some(t.clone()),
                None => None,
            },
            None => None,
        },
        None => None,
    }
}

/// The price in an OKX ticker document.
pub fn okx_price(doc: &Option<Json>) -> (r: Option<String>)
    ensures
        okx_price_of(*doc) == match r {
            Some(s) => Some(s@),
            None => None::<Seq<char>>,
        },
{
    match doc {
        Some(j) => match j.get("data") {
            Some(d) => match d.at(0) {
                Some(e) => match e.member_str("last") {
                    Some(t) => Some(t.clone()),
                    None => None,
                },
                None => None,
            },
            None => None,
        },
        None => None,
    }
}

} // verus!
