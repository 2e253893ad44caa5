use coin_snapshot::decimal::{parse_decimal, Decimal};
use coin_snapshot::endpoints::{binance_urls, coinbase_url, okx_url};
use coin_snapshot::fields::{
    change_text, coinbase_price, format_percent, format_ratio, funding_rate_text,
    long_short_text, okx_price, rsi_text, spot_price_text,
};
use coin_snapshot::json::{same_text, Json, JsonField};
use coin_snapshot::rsi::calculate_rsi;
use coin_snapshot::snapshot::{
    binance_info, get_coinbase_prices, merge_prices, snapshot, BinanceDocs, CoinInfo,
};
use coin_snapshot::text::format_fixed;

fn s(t: &str) -> Json {
    Json::Str(t.to_string())
}

fn obj(members: Vec<(&str, Json)>) -> Json {
    Json::Object(
        members
            .into_iter()
            .map(|(k, v)| JsonField { key: k.to_string(), value: v })
            .collect(),
    )
}

fn kline(close: &str) -> Json {
    Json::Array(vec![
        Json::Number("1700000000000".to_string()),
        s("1.0"),
        s("2.0"),
        s("0.5"),
        s(close),
        s("100.0"),
    ])
}

fn klines(closes: &[&str]) -> Option<Json> {
    Some(Json::Array(closes.iter().map(|c| kline(c)).collect()))
}

fn cells(c: &CoinInfo) -> Vec<String> {
    vec![
        c.binance_price.clone(),
        c.coinbase_price.clone(),
        c.okx_price.clone(),
        c.funding_rate.clone(),
        c.price_change_24h.clone(),
        c.long_short_ratio.clone(),
        c.rsi.clone(),
    ]
}

#[test]
fn rising_closes_give_one_hundred() {
    let closes: Vec<i128> = (0..14).map(|i| 100 + i * i).collect();
    assert_eq!(calculate_rsi(&closes), 10000);
    let flat: Vec<i128> = vec![5; 14];
    assert_eq!(calculate_rsi(&flat), 10000);
    let texts = [
        "1.0", "1.5", "1.5", "2", "2.25", "3", "3", "3.1", "4", "5", "5", "6", "7", "7.5",
    ];
    assert_eq!(rsi_text(&klines(&texts)), "100.00");
}

#[test]
fn scaling_closes_keeps_rsi() {
    let closes: Vec<i128> = vec![44, 47, 45, 43, 46, 49, 48, 50, 47, 45, 46, 52, 51, 49];
    let base = calculate_rsi(&closes);
    for k in [2i128, 3, 7, 1000] {
        let scaled: Vec<i128> = closes.iter().map(|c| c * k).collect();
        assert_eq!(calculate_rsi(&scaled), base);
    }
    let a = ["1.5", "2", "1", "3", "2.5", "2", "4", "3", "5", "4", "6", "5", "7", "6"];
    let b = ["15", "20", "10", "30", "25", "20", "40", "30", "50", "40", "60", "50", "70", "60"];
    assert_eq!(rsi_text(&klines(&a)), rsi_text(&klines(&b)));
}

#[test]
fn alternating_closes_golden_value() {
    let texts: Vec<&str> = (0..14).map(|i| if i % 2 == 0 { "100" } else { "101" }).collect();
    assert_eq!(rsi_text(&klines(&texts)), "53.85");
    let closes: Vec<i128> = (0..14).map(|i| if i % 2 == 0 { 100 } else { 101 }).collect();
    assert_eq!(calculate_rsi(&closes), 5385);
}

#[test]
fn kline_count_other_than_fourteen_is_unavailable() {
    let ten: Vec<&str> = vec!["100"; 10];
    assert_eq!(rsi_text(&klines(&ten)), "N/A");
    let twenty: Vec<&str> = vec!["100"; 20];
    assert_eq!(rsi_text(&klines(&twenty)), "N/A");
    let mut thirteen_readable: Vec<&str> = vec!["100"; 14];
    thirteen_readable[3] = "not a number";
    assert_eq!(rsi_text(&klines(&thirteen_readable)), "N/A");
    assert_eq!(rsi_text(&None), "N/A");
    assert_eq!(rsi_text(&Some(obj(vec![]))), "N/A");
}

#[test]
fn falling_closes_give_zero() {
    let texts: Vec<String> = (0..14).map(|i| format!("{}", 200 - i)).collect();
    let refs: Vec<&str> = texts.iter().map(|t| t.as_str()).collect();
    assert_eq!(rsi_text(&klines(&refs)), "0.00");
}

#[test]
fn zero_short_share_gives_zero_ratio() {
    let doc = Some(Json::Array(vec![obj(vec![
        ("symbol", s("BTCUSDT")),
        ("longAccount", s("0.6")),
        ("shortAccount", s("0")),
    ])]));
    assert_eq!(long_short_text(&doc), "0.00");
}

#[test]
fn long_short_ratio_two_places() {
    let doc = Some(Json::Array(vec![obj(vec![
        ("longAccount", s("0.6000")),
        ("shortAccount", s("0.4000")),
    ])]));
    assert_eq!(long_short_text(&doc), "1.50");
    let doc = Some(Json::Array(vec![obj(vec![
        ("longAccount", s("0.7123")),
        ("shortAccount", s("0.2877")),
    ])]));
    assert_eq!(long_short_text(&doc), "2.48");
    let missing = Some(Json::Array(vec![obj(vec![("longAccount", s("0.7"))])]));
    assert_eq!(long_short_text(&missing), "N/A");
    assert_eq!(long_short_text(&Some(Json::Array(vec![]))), "N/A");
    let unreadable_long = Some(Json::Array(vec![obj(vec![
        ("longAccount", s("abc")),
        ("shortAccount", s("0.5")),
    ])]));
    assert_eq!(long_short_text(&unreadable_long), "0.00");
}

#[test]
fn funding_rate_as_percent() {
    let doc = Some(obj(vec![("lastFundingRate", s("0.0005"))]));
    assert_eq!(funding_rate_text(&doc), "0.0500%");
    let doc = Some(obj(vec![("lastFundingRate", s("-0.00012345"))]));
    assert_eq!(funding_rate_text(&doc), "-0.0123%");
    let doc = Some(obj(vec![("lastFundingRate", s("0.00010000"))]));
    assert_eq!(funding_rate_text(&doc), "0.0100%");
    let doc = Some(obj(vec![("lastFundingRate", s("oops"))]));
    assert_eq!(funding_rate_text(&doc), "0.0000%");
    let doc = Some(obj(vec![("lastFundingRate", Json::Number("0.0005".to_string()))]));
    assert_eq!(funding_rate_text(&doc), "N/A");
    assert_eq!(funding_rate_text(&None), "N/A");
}

#[test]
fn spot_price_and_change() {
    let doc = Some(obj(vec![("symbol", s("BTCUSDT")), ("price", s("67234.56000000"))]));
    assert_eq!(spot_price_text(&doc), "67234.56000000");
    assert_eq!(spot_price_text(&Some(obj(vec![]))), "N/A");
    let doc = Some(obj(vec![("priceChangePercent", s("-1.234"))]));
    assert_eq!(change_text(&doc), "-1.234%");
    assert_eq!(change_text(&None), "N/A");
}

#[test]
fn coinbase_and_okx_prices() {
    let cb = Some(obj(vec![(
        "data",
        obj(vec![("base", s("BTC")), ("currency", s("USD")), ("amount", s("67000.12"))]),
    )]));
    assert_eq!(coinbase_price(&cb), Some("67000.12".to_string()));
    assert_eq!(coinbase_price(&Some(obj(vec![("data", obj(vec![]))]))), None);
    assert_eq!(coinbase_price(&None), None);
    let okx = Some(obj(vec![
        ("code", s("0")),
        ("data", Json::Array(vec![obj(vec![("instId", s("BTC-USDT")), ("last", s("66999.9"))])])),
    ]));
    assert_eq!(okx_price(&okx), Some("66999.9".to_string()));
    assert_eq!(okx_price(&Some(obj(vec![("data", Json::Array(vec![]))]))), None);
}

#[test]
fn missing_coinbase_price_is_placeholder() {
    let docs = BinanceDocs {
        price: Some(obj(vec![("price", s("3000.5"))])),
        funding: Some(obj(vec![("lastFundingRate", s("0.0001"))])),
        ticker: Some(obj(vec![("priceChangePercent", s("2.5"))])),
        long_short: None,
        klines: None,
    };
    let binance = vec![binance_info(&docs)];
    let coinbase = get_coinbase_prices(&vec![None]);
    let okx = vec![Some("3001.0".to_string())];
    let merged = merge_prices(&binance, &coinbase, &okx);
    assert_eq!(merged.len(), 1);
    assert_eq!(
        cells(&merged[0]),
        vec!["3000.5", "N/A", "3001.0", "0.0100%", "2.5%", "N/A", "N/A"]
    );
}

#[test]
fn all_requests_failed_two_symbols() {
    let binance = vec![BinanceDocs::failed(), BinanceDocs::failed()];
    let rows = snapshot(&binance, &vec![None, None], &vec![None, None]);
    assert_eq!(rows.len(), 2);
    for row in &rows {
        for cell in cells(row) {
            assert_eq!(cell, "N/A");
        }
    }
    let unavailable = CoinInfo::unavailable();
    assert_eq!(cells(&unavailable), vec!["N/A"; 7]);
}

#[test]
fn decimal_text_grammar() {
    assert_eq!(
        parse_decimal("-0.00012345"),
        Some(Decimal { negative: true, mantissa: 12345, scale: 8 })
    );
    assert_eq!(parse_decimal("+12"), Some(Decimal { negative: false, mantissa: 12, scale: 0 }));
    assert_eq!(parse_decimal("5."), Some(Decimal { negative: false, mantissa: 5, scale: 0 }));
    assert_eq!(parse_decimal(".5"), Some(Decimal { negative: false, mantissa: 5, scale: 1 }));
    assert_eq!(parse_decimal(""), None);
    assert_eq!(parse_decimal("."), None);
    assert_eq!(parse_decimal("-"), None);
    assert_eq!(parse_decimal("1.2.3"), None);
    assert_eq!(parse_decimal("1e5"), None);
    assert_eq!(parse_decimal("999999999999999999"), Some(Decimal {
        negative: false,
        mantissa: 999999999999999999,
        scale: 0
    }));
    assert_eq!(parse_decimal("1000000000000000000"), None);
    assert_eq!(parse_decimal("0.0000000000000000001"), None);
}

#[test]
fn fixed_point_text() {
    assert_eq!(format_fixed(false, 5385, 2), "53.85");
    assert_eq!(format_fixed(false, 7, 4), "0.0007");
    assert_eq!(format_fixed(true, 123, 4), "-0.0123");
    assert_eq!(format_fixed(false, 42, 0), "42");
    assert_eq!(format_fixed(false, 0, 2), "0.00");
    let half = Decimal { negative: false, mantissa: 5, scale: 7 };
    assert_eq!(format_percent(half), "0.0001%");
    let one = Decimal { negative: false, mantissa: 1, scale: 0 };
    let three = Decimal { negative: false, mantissa: 3, scale: 0 };
    assert_eq!(format_ratio(one, three), "0.33");
    assert_eq!(format_ratio(three, one), "3.00");
}

#[test]
fn request_targets() {
    let u = binance_urls("BTC");
    assert_eq!(u.price, "https://api.binance.com/api/v3/ticker/price?symbol=BTCUSDT");
    assert_eq!(u.funding, "https://fapi.binance.com/fapi/v1/premiumIndex?symbol=BTCUSDT");
    assert_eq!(u.ticker, "https://api.binance.com/api/v3/ticker/24hr?symbol=BTCUSDT");
    assert_eq!(
        u.long_short,
        "https://fapi.binance.com/futures/data/globalLongShortAccountRatio?symbol=BTCUSDT&period=5m"
    );
    assert_eq!(
        u.klines,
        "https://api.binance.com/api/v3/klines?symbol=BTCUSDT&interval=1h&limit=14"
    );
    assert_eq!(coinbase_url("ETH"), "https://api.coinbase.com/v2/prices/ETH-USD/spot");
    assert_eq!(okx_url("ETH"), "https://www.okx.com/api/v5/market/ticker?instId=ETH-USDT");
}

#[test]
fn json_member_lookup() {
    let doc = obj(vec![("a", s("first")), ("a", s("second")), ("b", Json::Null)]);
    assert_eq!(doc.member_str("a").map(|t| t.as_str()), Some("first"));
    assert!(doc.member_str("b").is_none());
    assert!(doc.get("c").is_none());
    assert!(same_text("abc", "abc"));
    assert!(!same_text("abc", "abd"));
    assert!(!same_text("ab", "abc"));
}
