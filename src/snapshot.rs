//! One record per symbol, merged from the documents of three exchanges.
use vstd::prelude::*;
use crate::json::Json;
use crate::fields::{
    placeholder, placeholder_text, or_placeholder, spot_price_field, funding_rate_field,
    change_field, long_short_field, rsi_field, coinbase_price_of, okx_price_of, spot_price_text,
    funding_rate_text, change_text, long_short_text, rsi_text, coinbase_price, okx_price,
};

verus! {

/// The reported fields of one symbol, each a text or the placeholder.
#[derive(Debug)]
pub struct CoinInfo {
    pub binance_price: String,
    pub coinbase_price: String,
    pub okx_price: String,
    pub funding_rate: String,
    pub price_change_24h: String,
    pub long_short_ratio: String,
    pub rsi: String,
}

/// The five Binance documents of one symbol; `None` where the request or
/// its body failed.
#[derive(Debug)]
pub struct BinanceDocs {
    pub price: Option<Json>,
    pub funding: Option<Json>,
    pub ticker: Option<Json>,
    pub long_short: Option<Json>,
    pub klines: Option<Json>,
}

impl BinanceDocs {
    /// No document at all.
    pub fn failed() -> (r: BinanceDocs)
        ensures
            r.price is None,
            r.funding is None,
            r.ticker is None,
            r.long_short is None,
            r.klines is None,
    {
        BinanceDocs { price: None, funding: None, ticker: None, long_short: None, klines: None }
    }
}

impl CoinInfo {
    /// The fields in report order: the three prices, funding rate, 24-hour
    /// change, long/short ratio, RSI.
    pub open spec fn cells(&self) -> Seq<Seq<char>> {
        seq![
            self.binance_price@,
            self.coinbase_price@,
            self.okx_price@,
            self.funding_rate@,
            self.price_change_24h@,
            self.long_short_ratio@,
            self.rsi@,
        ]
    }

    /// A record with every field unavailable.
    pub fn unavailable() -> (r: CoinInfo)
        ensures
            r.cells() == seq![placeholder(); 7],
    {
        let r = CoinInfo {
            binance_price: placeholder_text(),
            coinbase_price: placeholder_text(),
            okx_price: placeholder_text(),
            funding_rate: placeholder_text(),
            price_change_24h: placeholder_text(),
            long_short_ratio: placeholder_text(),
            rsi: placeholder_text(),
        };
        assert(r.cells() =~= seq![placeholder(); 7]);
        r
    }
}

pub open spec fn opt_text(o: Option<String>) -> Option<Seq<char>> {
    match o {
        Some(s) => Some(s@),
        None => None,
    }
}

/// The record of one symbol from its Binance documents and the prices
/// found at Coinbase and OKX.
pub open spec fn coin_cells(b: BinanceDocs, coinbase: Option<Seq<char>>, okx: Option<Seq<char>>) -> Seq<Seq<char>> {
    seq![
        spot_price_field(b.price),
        or_placeholder(coinbase),
        or_placeholder(okx),
        funding_rate_field(b.funding),
        change_field(b.ticker),
        long_short_field(b.long_short),
        rsi_field(b.klines),
    ]
}

/// The Binance fields of one symbol; the other prices are left unavailable.
pub fn binance_info(docs: &BinanceDocs) -> (r: CoinInfo)
    ensures
        r.cells() == coin_cells(*docs, None, None),
{
    let r = CoinInfo {
        binance_price: spot_price_text(&docs.price),
        coinbase_price: placeholder_text(),
        okx_price: placeholder_text(),
        funding_rate: funding_rate_text(&docs.funding),
        price_change_24h: change_text(&docs.ticker),
        long_short_ratio: long_short_text(&docs.long_short),
        rsi: rsi_text(&docs.klines),
    };
    assert(r.cells() =~= coin_cells(*docs, None, None));
    r
}

/// One record per symbol from the Binance documents, in the same order.
pub fn get_binance_prices(docs: &Vec<BinanceDocs>) -> (r: Vec<CoinInfo>)
    ensures
        r.len() == docs.len(),
        forall|i: int| 0 <= i < r.len() ==> (#[trigger] r[i]).cells() == coin_cells(docs[i], None, None),
{
    let mut r: Vec<CoinInfo> = Vec::new();
    let mut i: usize = 0;
    while i < docs.len()
        invariant
            i <= docs.len(),
            r.len() == i,
            forall|j: int| 0 <= j < i ==> (#[trigger] r[j]).cells() == coin_cells(docs[j], None, None),
        decreases docs.len() - i,
    {
        r.push(binance_info(&docs[i]));
        i = i + 1;
    }
    r
}

/// The Coinbase price of each symbol, where its document has one.
pub fn get_coinbase_prices(docs: &Vec<Option<Json>>) -> (r: Vec<Option<String>>)
    ensures
        r.len() == docs.len(),
        forall|i: int| 0 <= i < r.len() ==> opt_text(#[trigger] r[i]) == coinbase_price_of(docs[i]),
{
    let mut r: Vec<Option<String>> = Vec::new();
    let mut i: usize = 0;
    while i < docs.len()
        invariant
            i <= docs.len(),
            r.len() == i,
            forall|j: int| 0 <= j < i ==> opt_text(#[trigger] r[j]) == coinbase_price_of(docs[j]),
        decreases docs.len() - i,
    {
        r.push(coinbase_price(&docs[i]));
        i = i + 1;
    }
    r
}

/// The OKX price of each symbol, where its document has one.
pub fn get_okx_prices(docs: &Vec<Option<Json>>) -> (r: Vec<Option<String>>)
    ensures
        r.len() == docs.len(),
        forall|i: int| 0 <= i < r.len() ==> opt_text(#[trigger] r[i]) == okx_price_of(docs[i]),
{
    let mut r: Vec<Option<String>> = Vec::new();
    let mut i: usize = 0;
    while i < docs.len()
        invariant
            i <= docs.len(),
            r.len() == i,
            forall|j: int| 0 <= j < i ==> opt_text(#[trigger] r[j]) == okx_price_of(docs[j]),
        decreases docs.len() - i,
    {
        r.push(okx_price(&docs[i]));
        i = i + 1;
    }
    r
}

fn text_or_placeholder(o: &Option<String>) -> (r: String)
    ensures
        r@ == or_placeholder(opt_text(*o)),
{
    match o {
        Some(s) => s.clone(),
        None => placeholder_text(),
    }
}

/// Puts the Coinbase and OKX prices into the Binance records, symbol by
/// symbol; a symbol without a price gets the placeholder, and every other
/// field is kept as it was.
pub fn merge_prices(
    binance: &Vec<CoinInfo>,
    coinbase: &Vec<Option<String>>,
    okx: &Vec<Option<String>>,
) -> (r: Vec<CoinInfo>)
    requires
        coinbase.len() == binance.len(),
        okx.len() == binance.len(),
    ensures
        r.len() == binance.len(),
        forall|i: int| 0 <= i < r.len() ==> (#[trigger] r[i]).cells() == binance[i].cells().update(
            1,
            or_placeholder(opt_text(coinbase[i])),
        ).update(2, or_placeholder(opt_text(okx[i]))),
{
    let mut r: Vec<CoinInfo> = Vec::new();
    let mut i: usize = 0;
    while i < binance.len()
        invariant
            i <= binance.len(),
            coinbase.len() == binance.len(),
            okx.len() == binance.len(),
            r.len() == i,
            forall|j: int| 0 <= j < i ==> (#[trigger] r[j]).cells() == binance[j].cells().update(
                1,
                or_placeholder(opt_text(coinbase[j])),
            ).update(2, or_placeholder(opt_text(okx[j]))),
        decreases binance.len() - i,
    {
        let b = &binance[i];
        let c = CoinInfo {
            binance_price: b.binance_price.clone(),
            coinbase_price: text_or_placeholder(&coinbase[i]),
            okx_price: text_or_placeholder(&okx[i]),
            funding_rate: b.funding_rate.clone(),
            price_change_24h: b.price_change_24h.clone(),
            long_short_ratio: b.long_short_ratio.clone(),
            rsi: b.rsi.clone(),
        };
        assert(c.cells() =~= b.cells().update(1, or_placeholder(opt_text(coinbase[i as int]))).update(
            2,
            or_placeholder(opt_text(okx[i as int])),
        ));
        r.push(c);
        i = i + 1;
    }
    r
}

/// The whole snapshot: one record per symbol, from the documents fetched
/// for it at each exchange.
pub fn snapshot(
    binance: &Vec<BinanceDocs>,
    coinbase: &Vec<Option<Json>>,
    okx: &Vec<Option<Json>>,
) -> (r: Vec<CoinInfo>)
    requires
        coinbase.len() == binance.len(),
        okx.len() == binance.len(),
    ensures
        r.len() == binance.len(),
        forall|i: int| 0 <= i < r.len() ==> (#[trigger] r[i]).cells() == coin_cells(
            binance[i],
            coinbase_price_of(coinbase[i]),
            okx_price_of(okx[i]),
        ),
{
    let b = get_binance_prices(binance);
    let c = get_coinbase_prices(coinbase);
    let o = get_okx_prices(okx);
    let r = merge_prices(&b, &c, &o);
    assert forall|i: int| 0 <= i < r.len() implies (#[trigger] r[i]).cells() == coin_cells(
        binance[i],
        coinbase_price_of(coinbase[i]),
        okx_price_of(okx[i]),
    ) by {
        assert(r[i].cells() =~= coin_cells(binance[i], coinbase_price_of(coinbase[i]), okx_price_of(okx[i])));
    }
    r
}

/// A symbol whose every request failed is reported with the placeholder
/// in every field.
pub proof fn lemma_failed_requests_unavailable(b: BinanceDocs)
    requires
        b.price is None,
        b.funding is None,
        b.ticker is None,
        b.long_short is None,
        b.klines is None,
    ensures
        coin_cells(b, coinbase_price_of(None), okx_price_of(None)) == seq![placeholder(); 7],
{
    assert(coin_cells(b, coinbase_price_of(None), okx_price_of(None)) =~= seq![placeholder(); 7]);
}

} // verus!
