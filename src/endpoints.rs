//! The request targets of each exchange for one symbol.
use vstd::prelude::*;
use vstd::string::StringExecFns;

verus! {

/// `prefix`, then the symbol, then `suffix`.
pub fn with_symbol(prefix: &str, symbol: &str, suffix: &str) -> (r: String)
    ensures
        r@ == prefix@ + symbol@ + suffix@,
{
    let mut r = prefix.to_owned();
    r.append(symbol);
    r.append(suffix);
    r
}

/// The five Binance endpoints of one symbol.
#[derive(Debug)]
pub struct BinanceUrls {
    pub price: String,
    pub funding: String,
    pub ticker: String,
    pub long_short: String,
    pub klines: String,
}

/// Spot price, premium index, 24-hour ticker, global long/short account
/// ratio over five minutes, and the last fourteen hourly klines of the
/// symbol's USDT pair.
pub fn binance_urls(symbol: &str) -> (r: BinanceUrls)
    ensures
        r.price@ == "https://api.binance.com/api/v3/ticker/price?symbol="@ + symbol@ + "USDT"@,
        r.funding@ == "https://fapi.binance.com/fapi/v1/premiumIndex?symbol="@ + symbol@ + "USDT"@,
        r.ticker@ == "https://api.binance.com/api/v3/ticker/24hr?symbol="@ + symbol@ + "USDT"@,
        r.long_short@ == "https://fapi.binance.com/futures/data/globalLongShortAccountRatio?symbol="@
            + symbol@ + "USDT&period=5m"@,
        r.klines@ == "https://api.binance.com/api/v3/klines?symbol="@ + symbol@
            + "USDT&interval=1h&limit=14"@,
{
    BinanceUrls {
        price: with_symbol("https://api.binance.com/api/v3/ticker/price?symbol=", symbol, "USDT"),
        funding: with_symbol(
            "https://fapi.binance.com/fapi/v1/premiumIndex?symbol=",
            symbol,
            "USDT",
        ),
        ticker: with_symbol("https://api.binance.com/api/v3/ticker/24hr?symbol=", symbol, "USDT"),
        long_short: with_symbol(
            "https://fapi.binance.com/futures/data/globalLongShortAccountRatio?symbol=",
            symbol,
            "USDT&period=5m",
        ),
        klines: with_symbol(
            "https://api.binance.com/api/v3/klines?symbol=",
            symbol,
            "USDT&interval=1h&limit=14",
        ),
    }
}

/// The Coinbase spot price endpoint of the symbol's USD pair.
pub fn coinbase_url(symbol: &str) -> (r: String)
    ensures
        r@ == "https://api.coinbase.com/v2/prices/"@ + symbol@ + "-USD/spot"@,
{
    with_symbol("https://api.coinbase.com/v2/prices/", symbol, "-USD/spot")
}

/// The OKX ticker endpoint of the symbol's USDT pair.
pub fn okx_url(symbol: &str) -> (r: String)
    ensures
        r@ == "https://www.okx.com/api/v5/market/ticker?instId="@ + symbol@ + "-USDT"@,
{
    with_symbol("https://www.okx.com/api/v5/market/ticker?instId=", symbol, "-USDT")
}

} // verus!
