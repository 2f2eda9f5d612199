//! Candles from the Finnhub `stock/candle` query.

use vstd::prelude::*;
use vstd::string::*;
use crate::bars::{Bar, BarView, bars_view, is_stable_ts_sort, sort_bars_by_ts, fresh_for, lemma_sort_fresh, lemma_sort_members, lemma_sort_contains, newer};
use crate::decimal::{decimal, u64_to_decimal};
use crate::json::{Json, member, text_of, json_i64, json_price, as_text, field_i64, field_price, text_eq};

verus! {

/// The candle resolution Finnhub is asked for on a timeframe.
pub open spec fn resolution_of(tf: Seq<char>) -> Seq<char> {
    if tf == "1h"@ {
        "60"@
    } else if tf == "4h"@ {
        "240"@
    } else {
        "D"@
    }
}

/// How far back, in seconds, candles are asked for on a timeframe.
pub open spec fn lookback_of(tf: Seq<char>) -> u64 {
    if tf == "1h"@ {
        259200
    } else if tf == "4h"@ {
        1209600
    } else if tf == "1d"@ {
        2592000
    } else {
        604800
    }
}

/// The candle resolution for a timeframe: `60` for `1h`, `240` for `4h`,
/// `D` for `1d` and for any other.
pub fn finnhub_resolution(tf: &str) -> (r: &'static str)
    ensures
        r@ == resolution_of(tf@),
{
    if text_eq(tf, "1h") {
        "60"
    } else if text_eq(tf, "4h") {
        "240"
    } else if text_eq(tf, "1d") {
        "D"
    } else {
        "D"
    }
}

/// The lookback for a timeframe: three days for `1h`, two weeks for `4h`,
/// thirty days for `1d`, a week for any other.
pub fn finnhub_lookback_seconds(tf: &str) -> (r: u64)
    ensures
        r == lookback_of(tf@),
{
    if text_eq(tf, "1h") {
        86400 * 3
    } else if text_eq(tf, "4h") {
        86400 * 14
    } else if text_eq(tf, "1d") {
        86400 * 30
    } else {
        86400 * 7
    }
}

/// The `(from, to)` window asked for at time `now`: the lookback of the
/// timeframe before `now`, not below zero, up to `now`.
pub fn finnhub_window(now: u64, tf: &str) -> (r: (u64, u64))
    ensures
        r.1 == now,
        r.0 == if now >= lookback_of(tf@) { (now - lookback_of(tf@)) as u64 } else { 0 },
{
    let back = finnhub_lookback_seconds(tf);
    (now.saturating_sub(back), now)
}

/// The candle query URL.
pub fn finnhub_url(ticker: &str, resolution: &str, from: u64, to: u64, token: &str) -> (r: String)
    ensures
        r@ == "https://finnhub.io/api/v1/stock/candle?symbol="@ + ticker@ + "&resolution="@ + resolution@
            + "&from="@ + decimal(from as nat) + "&to="@ + decimal(to as nat) + "&token="@ + token@,
{
    let mut url = String::from_str("https://finnhub.io/api/v1/stock/candle?symbol=");
    url.append(ticker);
    url.append("&resolution=");
    url.append(resolution);
    url.append("&from=");
    let f = u64_to_decimal(from);
    url.append(f.as_str());
    url.append("&to=");
    let t = u64_to_decimal(to);
    url.append(t.as_str());
    url.append("&token=");
    url.append(token);
    url
}

/// The error of a response whose HTTP status is not 200.
pub fn finnhub_status_error(status: u16, ticker: &str) -> (r: Option<String>)
    ensures
        status == 200 ==> r is None,
        status != 200 ==> (r matches Some(m) && m@ == "Finnhub status "@ + decimal(status as nat) + " for "@ + ticker@),
{
    if status == 200 {
        None
    } else {
        let mut m = String::from_str("Finnhub status ");
        let code = u64_to_decimal(status as u64);
        m.append(code.as_str());
        m.append(" for ");
        m.append(ticker);
        Some(m)
    }
}

/// The six parallel columns of a candle payload.
pub struct Columns {
    pub t: Seq<Json>,
    pub o: Seq<Json>,
    pub h: Seq<Json>,
    pub l: Seq<Json>,
    pub c: Seq<Json>,
    pub v: Seq<Json>,
}

/// The array under `key`, if that member is an array.
pub open spec fn column(payload: Json, key: Seq<char>) -> Option<Seq<Json>> {
    match member(payload, key) {
        Some(Json::Array(a)) => Some(a@),
        _ => None,
    }
}

/// The columns of a payload whose status is absent, not a string, or `ok`,
/// and whose six columns are arrays.
pub open spec fn candle_columns(payload: Json) -> Option<Columns> {
    if text_of(member(payload, "s"@)) matches Some(status) && status != "ok"@ {
        None
    } else {
        match (column(payload, "t"@), column(payload, "o"@), column(payload, "h"@), column(payload, "l"@),
            column(payload, "c"@), column(payload, "v"@)) {
            (Some(t), Some(o), Some(h), Some(l), Some(c), Some(v)) => Some(Columns { t, o, h, l, c, v }),
            _ => None,
        }
    }
}

/// The number of complete rows: the length of the shortest column.
pub open spec fn row_count(cols: Columns) -> int {
    let a = if cols.t.len() <= cols.o.len() { cols.t.len() } else { cols.o.len() };
    let b = if a <= cols.h.len() { a } else { cols.h.len() };
    let c = if b <= cols.l.len() { b } else { cols.l.len() };
    let d = if c <= cols.c.len() { c } else { cols.c.len() };
    if d <= cols.v.len() { d as int } else { cols.v.len() as int }
}

/// The bar of row `i`: kept when all six values read and it is newer than `last_ts`.
pub open spec fn candle_bar(cols: Columns, i: int, ticker: Seq<char>, tf: Seq<char>, last_ts: Option<i64>) -> Option<BarView> {
    let ts = json_i64(Some(cols.t[i]));
    let open = json_price(Some(cols.o[i]));
    let high = json_price(Some(cols.h[i]));
    let low = json_price(Some(cols.l[i]));
    let close = json_price(Some(cols.c[i]));
    let volume = json_price(Some(cols.v[i]));
    if ts is Some && open is Some && high is Some && low is Some && close is Some && volume is Some {
        if last_ts matches Some(latest) && ts.unwrap() <= latest {
            None
        } else {
            Some(BarView {
                ts: ts.unwrap(),
                ticker,
                tf,
                open: open.unwrap(),
                high: high.unwrap(),
                low: low.unwrap(),
                close: close.unwrap(),
                volume: volume.unwrap(),
            })
        }
    } else {
        None
    }
}

/// The bars of the first `n` rows, in row order.
pub open spec fn candle_bars(cols: Columns, n: int, ticker: Seq<char>, tf: Seq<char>, last_ts: Option<i64>) -> Seq<BarView>
    decreases n,
{
    if n <= 0 {
        Seq::empty()
    } else {
        let prev = candle_bars(cols, n - 1, ticker, tf, last_ts);
        match candle_bar(cols, n - 1, ticker, tf, last_ts) {
            Some(b) => prev.push(b),
            None => prev,
        }
    }
}

/// The candle bars are all of the ticker and timeframe asked for, and newer
/// than `last_ts`.
pub proof fn lemma_candle_bars_fresh(cols: Columns, n: int, ticker: Seq<char>, tf: Seq<char>, last_ts: Option<i64>)
    ensures
        fresh_for(candle_bars(cols, n, ticker, tf, last_ts), ticker, tf, last_ts),
    decreases n,
{
    if n > 0 {
        lemma_candle_bars_fresh(cols, n - 1, ticker, tf, last_ts);
        let prev = candle_bars(cols, n - 1, ticker, tf, last_ts);
        let all = candle_bars(cols, n, ticker, tf, last_ts);
        assert forall|i: int| 0 <= i < all.len() implies {
            &&& (#[trigger] all[i]).ticker == ticker
            &&& all[i].tf == tf
            &&& (last_ts matches Some(latest) ==> all[i].ts > latest)
        } by {
            if i < prev.len() {
                assert(all[i] == prev[i]);
            }
        }
    }
}

/// Row `i` lies within all six columns and its six values read.
pub open spec fn row_readable(cols: Columns, i: int) -> bool {
    &&& 0 <= i
    &&& i < cols.t.len() && i < cols.o.len() && i < cols.h.len()
    &&& i < cols.l.len() && i < cols.c.len() && i < cols.v.len()
    &&& json_i64(Some(cols.t[i])) is Some
    &&& json_price(Some(cols.o[i])) is Some
    &&& json_price(Some(cols.h[i])) is Some
    &&& json_price(Some(cols.l[i])) is Some
    &&& json_price(Some(cols.c[i])) is Some
    &&& json_price(Some(cols.v[i])) is Some
}

/// The bar that row `i` describes: its timestamp from `t`, and its open,
/// high, low, close and volume from `o`, `h`, `l`, `c` and `v`.
pub open spec fn row_view(cols: Columns, i: int, ticker: Seq<char>, tf: Seq<char>) -> BarView {
    BarView {
        ts: json_i64(Some(cols.t[i])).unwrap(),
        ticker,
        tf,
        open: json_price(Some(cols.o[i])).unwrap(),
        high: json_price(Some(cols.h[i])).unwrap(),
        low: json_price(Some(cols.l[i])).unwrap(),
        close: json_price(Some(cols.c[i])).unwrap(),
        volume: json_price(Some(cols.v[i])).unwrap(),
    }
}

/// The candles read from the first `n` rows are exactly the rows that read
/// and are newer than `last_ts`: each such row yields its bar, whatever the
/// rows before or after it hold, and every bar comes from such a row.
pub proof fn lemma_candle_bars_exact(cols: Columns, n: int, ticker: Seq<char>, tf: Seq<char>, last_ts: Option<i64>)
    requires
        0 <= n,
        n <= cols.t.len() && n <= cols.o.len() && n <= cols.h.len(),
        n <= cols.l.len() && n <= cols.c.len() && n <= cols.v.len(),
    ensures
        forall|i: int|
            #![trigger row_readable(cols, i)]
            0 <= i < n && row_readable(cols, i) && newer(row_view(cols, i, ticker, tf).ts, last_ts) ==> exists|k: int|
                0 <= k < candle_bars(cols, n, ticker, tf, last_ts).len()
                    && #[trigger] candle_bars(cols, n, ticker, tf, last_ts)[k] == row_view(cols, i, ticker, tf),
        forall|k: int|
            0 <= k < candle_bars(cols, n, ticker, tf, last_ts).len() ==> exists|i: int|
                #![trigger row_readable(cols, i)]
                0 <= i < n && row_readable(cols, i) && newer(row_view(cols, i, ticker, tf).ts, last_ts)
                    && #[trigger] candle_bars(cols, n, ticker, tf, last_ts)[k] == row_view(cols, i, ticker, tf),
    decreases n,
{
    if n > 0 {
        lemma_candle_bars_exact(cols, n - 1, ticker, tf, last_ts);
        let prev = candle_bars(cols, n - 1, ticker, tf, last_ts);
        let all = candle_bars(cols, n, ticker, tf, last_ts);
        let last = n - 1;
        let kept = row_readable(cols, last) && newer(row_view(cols, last, ticker, tf).ts, last_ts);
        if kept {
            assert(candle_bar(cols, last, ticker, tf, last_ts) == Some(row_view(cols, last, ticker, tf)));
            assert(all == prev.push(row_view(cols, last, ticker, tf)));
        } else {
            assert(candle_bar(cols, last, ticker, tf, last_ts) is None);
            assert(all == prev);
        }
        assert forall|i: int|
            #![trigger row_readable(cols, i)]
            0 <= i < n && row_readable(cols, i) && newer(row_view(cols, i, ticker, tf).ts, last_ts) implies exists|k: int|
                0 <= k < all.len() && #[trigger] all[k] == row_view(cols, i, ticker, tf) by {
            if i == last {
                assert(all[all.len() - 1] == row_view(cols, i, ticker, tf));
            } else {
                let k = choose|k: int| 0 <= k < prev.len() && #[trigger] prev[k] == row_view(cols, i, ticker, tf);
                assert(all[k] == prev[k]);
            }
        }
        assert forall|k: int| 0 <= k < all.len() implies exists|i: int|
            #![trigger row_readable(cols, i)]
            0 <= i < n && row_readable(cols, i) && newer(row_view(cols, i, ticker, tf).ts, last_ts)
                && #[trigger] all[k] == row_view(cols, i, ticker, tf) by {
            if k < prev.len() {
                assert(all[k] == prev[k]);
                let i = choose|i: int|
                    #![trigger row_readable(cols, i)]
                    0 <= i < n - 1 && row_readable(cols, i) && newer(row_view(cols, i, ticker, tf).ts, last_ts)
                        && #[trigger] prev[k] == row_view(cols, i, ticker, tf);
                assert(row_readable(cols, i));
            } else {
                assert(row_readable(cols, last));
            }
        }
    }
}

/// `out` holds exactly the bars of the rows that read and are newer than
/// `last_ts`: each such row's bar is in `out`, and each bar of `out` is such
/// a row's bar.
pub open spec fn candles_exactly(out: Seq<BarView>, cols: Columns, ticker: Seq<char>, tf: Seq<char>, last_ts: Option<i64>) -> bool {
    &&& forall|i: int|
        #![trigger row_readable(cols, i)]
        row_readable(cols, i) && newer(row_view(cols, i, ticker, tf).ts, last_ts) ==> exists|k: int|
            #![trigger out[k]]
            0 <= k < out.len() && out[k] == row_view(cols, i, ticker, tf)
    &&& forall|k: int| 0 <= k < out.len() ==> #[trigger] from_fresh_row(out[k], cols, ticker, tf, last_ts)
}

/// `b` is the bar of some row that reads and is newer than `last_ts`.
pub open spec fn from_fresh_row(b: BarView, cols: Columns, ticker: Seq<char>, tf: Seq<char>, last_ts: Option<i64>) -> bool {
    exists|i: int|
        #![trigger row_readable(cols, i)]
        row_readable(cols, i) && newer(row_view(cols, i, ticker, tf).ts, last_ts) && b == row_view(cols, i, ticker, tf)
}

/// Any stable ordering of the candles read from all complete rows holds
/// exactly the bars of the rows that read and are newer than `last_ts`.
pub proof fn lemma_sorted_candles(out: Seq<BarView>, cols: Columns, n: int, ticker: Seq<char>, tf: Seq<char>, last_ts: Option<i64>)
    requires
        n == row_count(cols),
        is_stable_ts_sort(out, candle_bars(cols, n, ticker, tf, last_ts)),
    ensures
        candles_exactly(out, cols, ticker, tf, last_ts),
{
    let inp = candle_bars(cols, n, ticker, tf, last_ts);
    lemma_candle_bars_exact(cols, n, ticker, tf, last_ts);
    assert forall|i: int|
        #![trigger row_readable(cols, i)]
        row_readable(cols, i) && newer(row_view(cols, i, ticker, tf).ts, last_ts) implies exists|k: int|
            #![trigger out[k]]
            0 <= k < out.len() && out[k] == row_view(cols, i, ticker, tf) by {
        assert(i < n);
        let j = choose|j: int| 0 <= j < inp.len() && #[trigger] inp[j] == row_view(cols, i, ticker, tf);
        lemma_sort_contains(out, inp, j);
        let k = choose|k: int| 0 <= k < out.len() && out[k] == inp[j];
        assert(out[k] == row_view(cols, i, ticker, tf));
    }
    assert forall|k: int| 0 <= k < out.len() implies #[trigger] from_fresh_row(out[k], cols, ticker, tf, last_ts) by {
        lemma_sorted_candle_source(out, cols, n, ticker, tf, last_ts, k);
    }
}

/// Each bar of a stable ordering of the read candles is the bar of a row
/// that reads and is newer than `last_ts`.
proof fn lemma_sorted_candle_source(out: Seq<BarView>, cols: Columns, n: int, ticker: Seq<char>, tf: Seq<char>, last_ts: Option<i64>, k: int)
    requires
        n == row_count(cols),
        is_stable_ts_sort(out, candle_bars(cols, n, ticker, tf, last_ts)),
        0 <= k < out.len(),
    ensures
        from_fresh_row(out[k], cols, ticker, tf, last_ts),
{
    let inp = candle_bars(cols, n, ticker, tf, last_ts);
    lemma_candle_bars_exact(cols, n, ticker, tf, last_ts);
    lemma_sort_members(out, inp, k);
    let j = choose|j: int| 0 <= j < inp.len() && inp[j] == out[k];
    assert(inp[j] == inp[j]);
    let i = choose|i: int|
        #![trigger row_readable(cols, i)]
        0 <= i < n && row_readable(cols, i) && newer(row_view(cols, i, ticker, tf).ts, last_ts)
            && #[trigger] inp[j] == row_view(cols, i, ticker, tf);
    assert(row_readable(cols, i));
    assert(out[k] == row_view(cols, i, ticker, tf));
}

/// The array of a member, as `get(key).and_then(|v| v.as_array())` finds it.
fn array_member<'a>(payload: &'a Json, key: &str) -> (r: Option<&'a Vec<Json>>)
    ensures
        (r is Some) == (column(*payload, key@) is Some),
        r matches Some(a) ==> a@ == column(*payload, key@).unwrap(),
{
    match payload.get(key) {
        Some(Json::Array(a)) => Some(a),
        _ => None,
    }
}

/// Reads the candles newer than `last_ts` out of a parsed Finnhub payload,
/// ordered by timestamp. A payload whose status is a string other than `ok`,
/// or that lacks one of the six columns, yields no candles.
pub fn finnhub_bars(payload: &Json, ticker: &str, tf: &str, last_ts: Option<i64>) -> (r: Vec<Bar>)
    ensures
        match candle_columns(*payload) {
            None => r@.len() == 0,
            Some(cols) => is_stable_ts_sort(bars_view(r@), candle_bars(cols, row_count(cols), ticker@, tf@, last_ts)),
        },
        fresh_for(bars_view(r@), ticker@, tf@, last_ts),
        candle_columns(*payload) matches Some(cols) ==> candles_exactly(bars_view(r@), cols, ticker@, tf@, last_ts),
        (text_of(member(*payload, "s"@)) matches Some(status) && status != "ok"@) ==> r@.len() == 0,
        (forall|key: Seq<char>| #![trigger column(*payload, key)]
            key == "t"@ || key == "o"@ || key == "h"@ || key == "l"@ || key == "c"@ || key == "v"@
                ==> column(*payload, key) is Some) && !(text_of(member(*payload, "s"@)) matches Some(status) && status != "ok"@)
            ==> candle_columns(*payload) is Some,
{
    if let Some(status) = as_text(payload.get("s")) {
        if !text_eq(status.as_str(), "ok") {
            return Vec::new();
        }
    }
    let t = match array_member(payload, "t") { Some(a) => a, None => { return Vec::new(); } };
    let o = match array_member(payload, "o") { Some(a) => a, None => { return Vec::new(); } };
    let h = match array_member(payload, "h") { Some(a) => a, None => { return Vec::new(); } };
    let l = match array_member(payload, "l") { Some(a) => a, None => { return Vec::new(); } };
    let c = match array_member(payload, "c") { Some(a) => a, None => { return Vec::new(); } };
    let v = match array_member(payload, "v") { Some(a) => a, None => { return Vec::new(); } };
    let ghost cols = Columns { t: t@, o: o@, h: h@, l: l@, c: c@, v: v@ };
    assert(candle_columns(*payload) == Some(cols));
    let mut len = t.len();
    if o.len() < len { len = o.len(); }
    if h.len() < len { len = h.len(); }
    if l.len() < len { len = l.len(); }
    if c.len() < len { len = c.len(); }
    if v.len() < len { len = v.len(); }
    assert(len == row_count(cols));
    let mut bars: Vec<Bar> = Vec::new();
    let mut i: usize = 0;
    while i < len
        invariant
            i <= len,
            len == row_count(cols),
            len <= t.len() && len <= o.len() && len <= h.len() && len <= l.len() && len <= c.len() && len <= v.len(),
            cols == (Columns { t: t@, o: o@, h: h@, l: l@, c: c@, v: v@ }),
            bars_view(bars@) == candle_bars(cols, i as int, ticker@, tf@, last_ts),
        decreases len - i,
    {
        let ts = field_i64(Some(&t[i]));
        let open = field_price(Some(&o[i]));
        let high = field_price(Some(&h[i]));
        let low = field_price(Some(&l[i]));
        let close = field_price(Some(&c[i]));
        let volume = field_price(Some(&v[i]));
        match (ts, open, high, low, close, volume) {
            (Some(ts), Some(open), Some(high), Some(low), Some(close), Some(volume)) => {
                let fresh = match last_ts {
                    Some(latest) => ts > latest,
                    None => true,
                };
                if fresh {
                    let bar = Bar {
                        ts,
                        ticker: String::from_str(ticker),
                        tf: String::from_str(tf),
                        open,
                        high,
                        low,
                        close,
                        volume,
                    };
                    bars.push(bar);
                    proof {
                        assert(bars_view(bars@) =~= bars_view(bars@.drop_last()).push(bars@.last()@));
                    }
                }
            },
            _ => {},
        }
        i = i + 1;
    }
    let sorted = sort_bars_by_ts(bars);
    proof {
        lemma_candle_bars_fresh(cols, len as int, ticker@, tf@, last_ts);
        lemma_sort_fresh(bars_view(sorted@), candle_bars(cols, len as int, ticker@, tf@, last_ts), ticker@, tf@, last_ts);
        lemma_sorted_candles(bars_view(sorted@), cols, len as int, ticker@, tf@, last_ts);
    }
    sorted
}

} // verus!
