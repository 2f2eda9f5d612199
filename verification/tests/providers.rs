use market_insights::alpha_vantage::{alpha_vantage_bars, alpha_vantage_status_error, alpha_vantage_url};
use market_insights::bars::{sort_bars_by_ts, Bar};
use market_insights::finnhub::{
    finnhub_bars, finnhub_lookback_seconds, finnhub_resolution, finnhub_status_error, finnhub_url, finnhub_window,
};
use market_insights::json::{field_i64, field_price, Json, JsonNumber};

fn s(text: &str) -> Json {
    Json::Str(text.to_string())
}

fn num(n: i64) -> Json {
    Json::Number(JsonNumber { text: n.to_string(), as_i64: Some(n) })
}

fn float(text: &str) -> Json {
    Json::Number(JsonNumber { text: text.to_string(), as_i64: None })
}

fn obj(members: Vec<(&str, Json)>) -> Json {
    Json::Object(members.into_iter().map(|(k, v)| (k.to_string(), v)).collect())
}

fn day(open: &str, high: &str, low: &str, close: &str, volume: &str) -> Json {
    obj(vec![
        ("1. open", s(open)),
        ("2. high", s(high)),
        ("3. low", s(low)),
        ("4. close", s(close)),
        ("5. adjusted close", s(close)),
        ("6. volume", s(volume)),
    ])
}

fn bar(ts: i64, ticker: &str, tf: &str, prices: [&str; 5]) -> Bar {
    Bar {
        ts,
        ticker: ticker.to_string(),
        tf: tf.to_string(),
        open: prices[0].to_string(),
        high: prices[1].to_string(),
        low: prices[2].to_string(),
        close: prices[3].to_string(),
        volume: prices[4].to_string(),
    }
}

#[test]
fn daily_series_bars_are_new_complete_and_ordered() {
    let payload = obj(vec![
        ("Meta Data", obj(vec![("2. Symbol", s("SPY"))])),
        (
            "Time Series (Daily)",
            obj(vec![
                ("2024-01-16", day("474.1", "475.0", "470.2", "472.3", "80000")),
                ("2024-01-12", day("470.0", "471.0", "469.0", "470.5", "70000")),
                ("2024-01-15", day("1", "2", "0.5", "oops", "10")),
                ("not a date", day("1", "2", "0.5", "1", "10")),
                ("2024-01-17", day("476", "477", "475", "476.5", "90000")),
                ("2024-01-11", day("469", "470", "468", "469.5", "60000")),
            ]),
        ),
    ]);
    // 2024-01-11 00:00:00 UTC
    let bars = alpha_vantage_bars(&payload, "SPY", "1d", Some(1704931200)).unwrap();
    assert_eq!(
        bars,
        vec![
            bar(1705017600, "SPY", "1d", ["470.0", "471.0", "469.0", "470.5", "70000"]),
            bar(1705363200, "SPY", "1d", ["474.1", "475.0", "470.2", "472.3", "80000"]),
            bar(1705449600, "SPY", "1d", ["476", "477", "475", "476.5", "90000"]),
        ]
    );
}

#[test]
fn daily_series_without_last_keeps_every_valid_day() {
    let payload = obj(vec![(
        "Time Series (Daily)",
        obj(vec![("2024-01-15", day("1.5", "2", "1", "1.75", "100"))]),
    )]);
    let bars = alpha_vantage_bars(&payload, "SPY", "1d", None).unwrap();
    assert_eq!(bars, vec![bar(1705276800, "SPY", "1d", ["1.5", "2", "1", "1.75", "100"])]);
}

#[test]
fn daily_series_reports_provider_error() {
    let payload = obj(vec![("Error Message", s("Invalid API call."))]);
    assert_eq!(alpha_vantage_bars(&payload, "SPY", "1d", None), Err("Invalid API call.".to_string()));
}

#[test]
fn daily_series_missing_is_an_error() {
    let payload = obj(vec![("Note", s("Thank you for using Alpha Vantage!"))]);
    assert_eq!(
        alpha_vantage_bars(&payload, "SPY", "1d", None),
        Err("AlphaVantage response missing series".to_string())
    );
    let not_object = obj(vec![("Time Series (Daily)", Json::Array(vec![]))]);
    assert!(alpha_vantage_bars(&not_object, "SPY", "1d", None).is_err());
    // an error message that is not a string is no error message
    let odd = obj(vec![("Error Message", num(3))]);
    assert_eq!(alpha_vantage_bars(&odd, "SPY", "1d", None), Err("AlphaVantage response missing series".to_string()));
}

#[test]
fn alpha_vantage_request_text() {
    assert_eq!(
        alpha_vantage_url("SPY", "KEY"),
        "https://www.alphavantage.co/query?function=TIME_SERIES_DAILY_ADJUSTED&symbol=SPY&outputsize=compact&apikey=KEY"
    );
    assert_eq!(alpha_vantage_status_error(200), None);
    assert_eq!(alpha_vantage_status_error(429), Some("AlphaVantage status = 429".to_string()));
}

fn candles(status: Option<&str>, t: Vec<Json>, o: Vec<Json>, v: Vec<Json>) -> Json {
    let mut members = vec![];
    if let Some(st) = status {
        members.push(("s", s(st)));
    }
    members.push(("t", Json::Array(t)));
    members.push(("o", Json::Array(o)));
    members.push(("h", Json::Array(vec![float("2.5"), float("3.5"), float("4.5"), float("5.5")])));
    members.push(("l", Json::Array(vec![float("1.5"), float("2.5"), float("3.5"), float("4.5")])));
    members.push(("c", Json::Array(vec![float("2.0"), float("3.0"), float("4.0"), float("5.0")])));
    members.push(("v", Json::Array(v)));
    obj(members)
}

#[test]
fn candles_are_new_complete_and_ordered() {
    let payload = candles(
        Some("ok"),
        vec![num(300), s("100"), num(200), num(50)],
        vec![float("2.1"), float("3.1"), s("bad"), float("5.1")],
        vec![num(10), num(20), num(30)],
    );
    let bars = finnhub_bars(&payload, "SPY", "1d", Some(99));
    assert_eq!(
        bars,
        vec![
            bar(100, "SPY", "1d", ["3.1", "3.5", "2.5", "3.0", "20"]),
            bar(300, "SPY", "1d", ["2.1", "2.5", "1.5", "2.0", "10"]),
        ]
    );
}

#[test]
fn candles_without_status_are_read() {
    let payload = candles(None, vec![num(5)], vec![float("1")], vec![num(1)]);
    assert_eq!(finnhub_bars(&payload, "X", "1h", None), vec![bar(5, "X", "1h", ["1", "2.5", "1.5", "2.0", "1"])]);
}

#[test]
fn candles_with_bad_status_or_missing_column_are_empty() {
    let no_data = candles(Some("no_data"), vec![num(5)], vec![float("1")], vec![num(1)]);
    assert!(finnhub_bars(&no_data, "X", "1d", None).is_empty());
    let missing = obj(vec![("s", s("ok")), ("t", Json::Array(vec![num(1)]))]);
    assert!(finnhub_bars(&missing, "X", "1d", None).is_empty());
}

#[test]
fn finnhub_request_parameters() {
    assert_eq!(finnhub_resolution("1h"), "60");
    assert_eq!(finnhub_resolution("4h"), "240");
    assert_eq!(finnhub_resolution("1d"), "D");
    assert_eq!(finnhub_resolution("1w"), "D");
    assert_eq!(finnhub_lookback_seconds("1h"), 259200);
    assert_eq!(finnhub_lookback_seconds("4h"), 1209600);
    assert_eq!(finnhub_lookback_seconds("1d"), 2592000);
    assert_eq!(finnhub_lookback_seconds("15m"), 604800);
    assert_eq!(finnhub_window(1_700_000_000, "1d"), (1_697_408_000, 1_700_000_000));
    assert_eq!(finnhub_window(1000, "1h"), (0, 1000));
    assert_eq!(
        finnhub_url("SPY", "D", 1, 22, "TOK"),
        "https://finnhub.io/api/v1/stock/candle?symbol=SPY&resolution=D&from=1&to=22&token=TOK"
    );
    assert_eq!(finnhub_status_error(200, "SPY"), None);
    assert_eq!(finnhub_status_error(403, "SPY"), Some("Finnhub status 403 for SPY".to_string()));
}

#[test]
fn fields_read_like_the_original() {
    assert_eq!(field_i64(Some(&num(-3))), Some(-3));
    assert_eq!(field_i64(Some(&float("1.5"))), None);
    assert_eq!(field_i64(Some(&s("+12"))), Some(12));
    assert_eq!(field_i64(Some(&s("12.0"))), None);
    assert_eq!(field_i64(Some(&Json::Null)), None);
    assert_eq!(field_i64(None), None);
    assert_eq!(field_price(Some(&float("1e300"))), Some("1e300".to_string()));
    assert_eq!(field_price(Some(&s("450.1200"))), Some("450.1200".to_string()));
    assert_eq!(field_price(Some(&s("n/a"))), None);
    assert_eq!(field_price(Some(&Json::Bool(true))), None);
}

#[test]
fn sorting_is_stable() {
    let input = vec![
        bar(3, "a", "1d", ["1", "1", "1", "1", "1"]),
        bar(1, "b", "1d", ["1", "1", "1", "1", "1"]),
        bar(3, "c", "1d", ["1", "1", "1", "1", "1"]),
        bar(2, "d", "1d", ["1", "1", "1", "1", "1"]),
        bar(1, "e", "1d", ["1", "1", "1", "1", "1"]),
    ];
    let order: Vec<String> = sort_bars_by_ts(input).into_iter().map(|b| b.ticker).collect();
    assert_eq!(order, vec!["b", "e", "d", "a", "c"]);
}

#[test]
fn members_are_found_by_name() {
    let v = obj(vec![("a", num(1)), ("b", num(2)), ("a", num(3))]);
    assert_eq!(field_i64(v.get("b")), Some(2));
    assert_eq!(field_i64(v.get("a")), Some(1));
    assert!(v.get("c").is_none());
    assert!(num(1).get("a").is_none());
}
