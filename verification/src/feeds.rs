//! The market feeds that the scheduled engine keeps up to date.

use vstd::prelude::*;

verus! {

/// A provider of market data.
#[derive(Clone, Copy, Debug, PartialEq, Eq, Structural)]
pub enum MarketSource {
    AlphaVantage,
    Finnhub,
}

/// A ticker on a timeframe, read from one provider.
#[derive(Clone, Copy, Debug)]
pub struct MarketFeed {
    pub ticker: &'static str,
    pub tf: &'static str,
    pub source: MarketSource,
}

/// The feed of `ticker` on `tf` from `source`.
pub open spec fn is_feed(f: MarketFeed, ticker: Seq<char>, tf: Seq<char>, source: MarketSource) -> bool {
    f.ticker@ == ticker && f.tf@ == tf && f.source == source
}

/// The feeds kept up to date: daily SPY from AlphaVantage, then daily SPY
/// from Finnhub.
pub fn market_feeds() -> (r: Vec<MarketFeed>)
    ensures
        r@.len() == 2,
        is_feed(r@[0], "SPY"@, "1d"@, MarketSource::AlphaVantage),
        is_feed(r@[1], "SPY"@, "1d"@, MarketSource::Finnhub),
{
    let mut feeds: Vec<MarketFeed> = Vec::new();
    feeds.push(MarketFeed { ticker: "SPY", tf: "1d", source: MarketSource::AlphaVantage });
    feeds.push(MarketFeed { ticker: "SPY", tf: "1d", source: MarketSource::Finnhub });
    feeds
}

/// The newest stored timestamp of a feed, from the rows of
/// `SELECT MAX(ts) ...`: the value of the first row, if there is one.
pub fn latest_stored_ts(rows: &Vec<Option<i64>>) -> (r: Option<i64>)
    ensures
        r == (if rows@.len() > 0 { rows@[0] } else { None }),
{
    if rows.len() > 0 {
        rows[0]
    } else {
        None
    }
}

} // verus!
