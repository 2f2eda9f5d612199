//! Daily bars from the AlphaVantage `TIME_SERIES_DAILY_ADJUSTED` query.

use vstd::prelude::*;
use vstd::string::*;
use crate::bars::{Bar, BarView, bars_view, is_stable_ts_sort, sort_bars_by_ts, fresh_for, lemma_sort_fresh, lemma_sort_members, lemma_sort_contains, newer};
use crate::decimal::{decimal, u64_to_decimal};
use crate::json::{Json, member, text_of, json_price, as_text, field_price};

verus! {

/// The UTC timestamp of `hour:min:sec` on the date that
/// `chrono::NaiveDate::parse_from_str(date, fmt)` reads from `date`, when it
/// reads one and the time of day is valid.
pub uninterp spec fn naive_date_timestamp(date: Seq<char>, fmt: Seq<char>, hour: u32, min: u32, sec: u32) -> Option<i64>;

/// Calls `chrono::NaiveDate::parse_from_str(date, fmt)`, then
/// `NaiveDate::and_hms_opt(hour, min, sec)`, `NaiveDateTime::and_utc` and
/// `DateTime::timestamp`. The contract claims only that the result is a
/// function of the arguments: none of chrono's format grammar is stated.
#[verifier::external_body]
pub(crate) fn date_timestamp(date: &str, fmt: &str, hour: u32, min: u32, sec: u32) -> (r: Option<i64>)
    ensures
        r == naive_date_timestamp(date@, fmt@, hour, min, sec),
{
    match chrono::NaiveDate::parse_from_str(date, fmt) {
        Ok(d) => match d.and_hms_opt(hour, min, sec) {
            Some(dt) => Some(dt.and_utc().timestamp()),
            None => None,
        },
        Err(_) => None,
    }
}

/// The start (00:00:00 UTC) of the `YYYY-MM-DD` day named by `date`.
pub open spec fn day_start(date: Seq<char>) -> Option<i64> {
    naive_date_timestamp(date, "%Y-%m-%d"@, 0, 0, 0)
}

/// The bar of one entry of the daily series: kept when its date parses, it is
/// newer than `last_ts`, and all five prices read.
pub open spec fn series_bar(date: Seq<char>, data: Json, ticker: Seq<char>, tf: Seq<char>, last_ts: Option<i64>) -> Option<BarView> {
    match day_start(date) {
        None => None,
        Some(ts) => {
            if last_ts matches Some(latest) && ts <= latest {
                None
            } else {
                let open = json_price(member(data, "1. open"@));
                let high = json_price(member(data, "2. high"@));
                let low = json_price(member(data, "3. low"@));
                let close = json_price(member(data, "4. close"@));
                let volume = json_price(member(data, "6. volume"@));
                if open is Some && high is Some && low is Some && close is Some && volume is Some {
                    Some(BarView {
                        ts,
                        ticker,
                        tf,
                        open: open.unwrap(),
                        high: high.unwrap(),
                        low: low.unwrap(),
                        close: close.unwrap(),
                        volume: volume.unwrap(),
                    })
                } else {
                    None
                }
            }
        },
    }
}

/// The bars of the series entries, in the order of the entries.
pub open spec fn series_bars(entries: Seq<(String, Json)>, ticker: Seq<char>, tf: Seq<char>, last_ts: Option<i64>) -> Seq<BarView>
    decreases entries.len(),
{
    if entries.len() == 0 {
        Seq::empty()
    } else {
        let prev = series_bars(entries.drop_last(), ticker, tf, last_ts);
        match series_bar(entries.last().0@, entries.last().1, ticker, tf, last_ts) {
            Some(b) => prev.push(b),
            None => prev,
        }
    }
}

/// The series bars are all of the ticker and timeframe asked for, and newer
/// than `last_ts`.
pub proof fn lemma_series_bars_fresh(entries: Seq<(String, Json)>, ticker: Seq<char>, tf: Seq<char>, last_ts: Option<i64>)
    ensures
        fresh_for(series_bars(entries, ticker, tf, last_ts), ticker, tf, last_ts),
    decreases entries.len(),
{
    if entries.len() > 0 {
        lemma_series_bars_fresh(entries.drop_last(), ticker, tf, last_ts);
        let prev = series_bars(entries.drop_last(), ticker, tf, last_ts);
        let all = series_bars(entries, ticker, tf, last_ts);
        assert forall|i: int| 0 <= i < all.len() implies {
            &&& (#[trigger] all[i]).ticker == ticker
            &&& all[i].tf == tf
            &&& (last_ts matches Some(latest) ==> all[i].ts > latest)
        } by {
            if i < prev.len() {
                assert(all[i] == prev[i]);
            }
        }
    }
}

/// A series entry's date names a day, and its `1. open`, `2. high`,
/// `3. low`, `4. close` and `6. volume` members hold prices.
pub open spec fn entry_readable(e: (String, Json)) -> bool {
    &&& naive_date_timestamp(e.0@, "%Y-%m-%d"@, 0, 0, 0) is Some
    &&& json_price(member(e.1, "1. open"@)) is Some
    &&& json_price(member(e.1, "2. high"@)) is Some
    &&& json_price(member(e.1, "3. low"@)) is Some
    &&& json_price(member(e.1, "4. close"@)) is Some
    &&& json_price(member(e.1, "6. volume"@)) is Some
}

/// The bar a series entry describes: stamped at 00:00:00 UTC of its date,
/// with open, high, low, close and volume from `1. open`, `2. high`,
/// `3. low`, `4. close` and `6. volume`.
pub open spec fn entry_view(e: (String, Json), ticker: Seq<char>, tf: Seq<char>) -> BarView {
    BarView {
        ts: naive_date_timestamp(e.0@, "%Y-%m-%d"@, 0, 0, 0).unwrap(),
        ticker,
        tf,
        open: json_price(member(e.1, "1. open"@)).unwrap(),
        high: json_price(member(e.1, "2. high"@)).unwrap(),
        low: json_price(member(e.1, "3. low"@)).unwrap(),
        close: json_price(member(e.1, "4. close"@)).unwrap(),
        volume: json_price(member(e.1, "6. volume"@)).unwrap(),
    }
}

/// `b` is the bar of some entry that reads and is newer than `last_ts`.
pub open spec fn from_fresh_entry(b: BarView, entries: Seq<(String, Json)>, ticker: Seq<char>, tf: Seq<char>, last_ts: Option<i64>) -> bool {
    exists|i: int|
        #![trigger entries[i]]
        0 <= i < entries.len() && entry_readable(entries[i]) && newer(entry_view(entries[i], ticker, tf).ts, last_ts)
            && b == entry_view(entries[i], ticker, tf)
}

/// `out` holds exactly the bars of the entries that read and are newer than
/// `last_ts`: each such entry's bar is in `out`, and each bar of `out` is
/// such an entry's bar.
pub open spec fn entries_exactly(out: Seq<BarView>, entries: Seq<(String, Json)>, ticker: Seq<char>, tf: Seq<char>, last_ts: Option<i64>) -> bool {
    &&& forall|i: int|
        #![trigger entries[i]]
        0 <= i < entries.len() && entry_readable(entries[i]) && newer(entry_view(entries[i], ticker, tf).ts, last_ts)
            ==> exists|k: int| 0 <= k < out.len() && #[trigger] out[k] == entry_view(entries[i], ticker, tf)
    &&& forall|k: int| 0 <= k < out.len() ==> #[trigger] from_fresh_entry(out[k], entries, ticker, tf, last_ts)
}

/// The bars read from a series are exactly the bars of the entries that
/// read and are newer than `last_ts`, whatever the other entries hold.
pub proof fn lemma_series_bars_exact(entries: Seq<(String, Json)>, ticker: Seq<char>, tf: Seq<char>, last_ts: Option<i64>)
    ensures
        entries_exactly(series_bars(entries, ticker, tf, last_ts), entries, ticker, tf, last_ts),
    decreases entries.len(),
{
    if entries.len() > 0 {
        let init = entries.drop_last();
        lemma_series_bars_exact(init, ticker, tf, last_ts);
        let prev = series_bars(init, ticker, tf, last_ts);
        let all = series_bars(entries, ticker, tf, last_ts);
        let last = entries.len() - 1;
        let e = entries[last];
        assert(entries.last() == e);
        let kept = entry_readable(e) && newer(entry_view(e, ticker, tf).ts, last_ts);
        if kept {
            assert(series_bar(e.0@, e.1, ticker, tf, last_ts) == Some(entry_view(e, ticker, tf)));
            assert(all == prev.push(entry_view(e, ticker, tf)));
        } else {
            assert(series_bar(e.0@, e.1, ticker, tf, last_ts) is None);
            assert(all == prev);
        }
        assert forall|i: int|
            #![trigger entries[i]]
            0 <= i < entries.len() && entry_readable(entries[i]) && newer(entry_view(entries[i], ticker, tf).ts, last_ts)
                implies exists|k: int| 0 <= k < all.len() && #[trigger] all[k] == entry_view(entries[i], ticker, tf) by {
            if i == last {
                assert(all[all.len() - 1] == entry_view(entries[i], ticker, tf));
            } else {
                assert(init[i] == entries[i]);
                let k = choose|k: int| 0 <= k < prev.len() && #[trigger] prev[k] == entry_view(init[i], ticker, tf);
                assert(all[k] == prev[k]);
            }
        }
        assert forall|k: int| 0 <= k < all.len() implies #[trigger] from_fresh_entry(all[k], entries, ticker, tf, last_ts) by {
            if k < prev.len() {
                assert(all[k] == prev[k]);
                assert(from_fresh_entry(prev[k], init, ticker, tf, last_ts));
                let i = choose|i: int|
                    #![trigger init[i]]
                    0 <= i < init.len() && entry_readable(init[i]) && newer(entry_view(init[i], ticker, tf).ts, last_ts)
                        && prev[k] == entry_view(init[i], ticker, tf);
                assert(entries[i] == init[i]);
            } else {
                assert(entries[last] == e);
            }
        }
    }
}

/// Each bar of a stable ordering of the series bars is the bar of an entry
/// that reads and is newer than `last_ts`.
proof fn lemma_sorted_series_source(out: Seq<BarView>, entries: Seq<(String, Json)>, ticker: Seq<char>, tf: Seq<char>, last_ts: Option<i64>, k: int)
    requires
        is_stable_ts_sort(out, series_bars(entries, ticker, tf, last_ts)),
        0 <= k < out.len(),
    ensures
        from_fresh_entry(out[k], entries, ticker, tf, last_ts),
{
    let inp = series_bars(entries, ticker, tf, last_ts);
    lemma_series_bars_exact(entries, ticker, tf, last_ts);
    lemma_sort_members(out, inp, k);
    let j = choose|j: int| 0 <= j < inp.len() && inp[j] == out[k];
    assert(from_fresh_entry(inp[j], entries, ticker, tf, last_ts));
}

/// Any stable ordering of the series bars holds exactly the bars of the
/// entries that read and are newer than `last_ts`.
pub proof fn lemma_sorted_series(out: Seq<BarView>, entries: Seq<(String, Json)>, ticker: Seq<char>, tf: Seq<char>, last_ts: Option<i64>)
    requires
        is_stable_ts_sort(out, series_bars(entries, ticker, tf, last_ts)),
    ensures
        entries_exactly(out, entries, ticker, tf, last_ts),
{
    let inp = series_bars(entries, ticker, tf, last_ts);
    lemma_series_bars_exact(entries, ticker, tf, last_ts);
    assert forall|i: int|
        #![trigger entries[i]]
        0 <= i < entries.len() && entry_readable(entries[i]) && newer(entry_view(entries[i], ticker, tf).ts, last_ts)
            implies exists|k: int| 0 <= k < out.len() && #[trigger] out[k] == entry_view(entries[i], ticker, tf) by {
        let j = choose|j: int| 0 <= j < inp.len() && #[trigger] inp[j] == entry_view(entries[i], ticker, tf);
        lemma_sort_contains(out, inp, j);
        let k = choose|k: int| 0 <= k < out.len() && out[k] == inp[j];
        assert(out[k] == entry_view(entries[i], ticker, tf));
    }
    assert forall|k: int| 0 <= k < out.len() implies #[trigger] from_fresh_entry(out[k], entries, ticker, tf, last_ts) by {
        lemma_sorted_series_source(out, entries, ticker, tf, last_ts, k);
    }
}

/// The message of a response that lacks the daily series.
pub open spec fn missing_series_message() -> Seq<char> {
    "AlphaVantage response missing series"@
}

/// What a daily-series payload yields: the provider's error message, the
/// missing-series message, or the bars of the series ordered by timestamp.
pub open spec fn daily_bars_outcome(payload: Json, ticker: Seq<char>, tf: Seq<char>, last_ts: Option<i64>, r: Result<Seq<BarView>, Seq<char>>) -> bool {
    match text_of(member(payload, "Error Message"@)) {
        Some(e) => r == Err::<Seq<BarView>, Seq<char>>(e),
        None => match member(payload, "Time Series (Daily)"@) {
            Some(Json::Object(entries)) => r matches Ok(bars) && is_stable_ts_sort(bars, series_bars(entries@, ticker, tf, last_ts)),
            _ => r == Err::<Seq<BarView>, Seq<char>>(missing_series_message()),
        },
    }
}

/// The query URL of the compact daily series of `ticker`.
pub fn alpha_vantage_url(ticker: &str, apikey: &str) -> (r: String)
    ensures
        r@ == "https://www.alphavantage.co/query?function=TIME_SERIES_DAILY_ADJUSTED&symbol="@ + ticker@
            + "&outputsize=compact&apikey="@ + apikey@,
{
    let mut url = String::from_str("https://www.alphavantage.co/query?function=TIME_SERIES_DAILY_ADJUSTED&symbol=");
    url.append(ticker);
    url.append("&outputsize=compact&apikey=");
    url.append(apikey);
    url
}

/// The error of a response whose HTTP status is not 200.
pub fn alpha_vantage_status_error(status: u16) -> (r: Option<String>)
    ensures
        status == 200 ==> r is None,
        status != 200 ==> (r matches Some(m) && m@ == "AlphaVantage status = "@ + decimal(status as nat)),
{
    if status == 200 {
        None
    } else {
        let mut m = String::from_str("AlphaVantage status = ");
        let code = u64_to_decimal(status as u64);
        m.append(code.as_str());
        Some(m)
    }
}

/// Reads the daily bars newer than `last_ts` out of a parsed AlphaVantage
/// payload, ordered by timestamp; or the error that the payload reports.
pub fn alpha_vantage_bars(payload: &Json, ticker: &str, tf: &str, last_ts: Option<i64>) -> (r: Result<Vec<Bar>, String>)
    ensures
        daily_bars_outcome(*payload, ticker@, tf@, last_ts, match r {
            Ok(bars) => Ok(bars_view(bars@)),
            Err(m) => Err(m@),
        }),
        r matches Ok(bars) ==> fresh_for(bars_view(bars@), ticker@, tf@, last_ts),
        text_of(member(*payload, "Error Message"@)) matches Some(e) ==> (r matches Err(m) && m@ == e),
        (text_of(member(*payload, "Error Message"@)) is None && member(*payload, "Time Series (Daily)"@) matches Some(Json::Object(_)))
            ==> r is Ok,
        r matches Ok(bars) ==> (member(*payload, "Time Series (Daily)"@) matches Some(Json::Object(entries))
            && entries_exactly(bars_view(bars@), entries@, ticker@, tf@, last_ts)),
{
    if let Some(err) = as_text(payload.get("Error Message")) {
        return Err(err.clone());
    }
    let entries = match payload.get("Time Series (Daily)") {
        Some(Json::Object(entries)) => entries,
        _ => {
            return Err(String::from_str("AlphaVantage response missing series"));
        },
    };
    let mut bars: Vec<Bar> = Vec::new();
    let mut i: usize = 0;
    while i < entries.len()
        invariant
            i <= entries.len(),
            bars_view(bars@) == series_bars(entries@.take(i as int), ticker@, tf@, last_ts),
        decreases entries.len() - i,
    {
        let date = &entries[i].0;
        let data = &entries[i].1;
        proof {
            assert(entries@.take(i + 1).drop_last() =~= entries@.take(i as int));
            assert(entries@.take(i + 1).last() == entries@[i as int]);
        }
        if let Some(ts) = date_timestamp(date.as_str(), "%Y-%m-%d", 0, 0, 0) {
            let fresh = match last_ts {
                Some(latest) => ts > latest,
                None => true,
            };
            if fresh {
                let open = field_price(data.get("1. open"));
                let high = field_price(data.get("2. high"));
                let low = field_price(data.get("3. low"));
                let close = field_price(data.get("4. close"));
                let volume = field_price(data.get("6. volume"));
                match (open, high, low, close, volume) {
                    (Some(open), Some(high), Some(low), Some(close), Some(volume)) => {
                        let bar = Bar {
                            ts,
                            ticker: String::from_str(ticker),
                            tf: String::from_str(tf),
                            open,
                            high,
                            low,
                            close,
                            volume,
                        };
                        bars.push(bar);
                        proof {
                            assert(bars_view(bars@) =~= bars_view(bars@.drop_last()).push(bars@.last()@));
                        }
                    },
                    _ => {},
                }
            }
        }
        i = i + 1;
    }
    proof {
        assert(entries@.take(entries.len() as int) =~= entries@);
        lemma_series_bars_fresh(entries@, ticker@, tf@, last_ts);
    }
    let sorted = sort_bars_by_ts(bars);
    proof {
        lemma_sort_fresh(bars_view(sorted@), series_bars(entries@, ticker@, tf@, last_ts), ticker@, tf@, last_ts);
        lemma_sorted_series(bars_view(sorted@), entries@, ticker@, tf@, last_ts);
    }
    Ok(sorted)
}

} // verus!
