//! The scheduled engine, as a state machine: it brings every market feed up
//! to date, then raises the breakout alert unless its cooldown is running,
//! and starts the cooldown. The caller performs each action and reports its
//! outcome as the next event.

use vstd::prelude::*;
use crate::feeds::{MarketFeed, MarketSource};
use crate::cooldown::{cooling, cooldown_end, lemma_cooling_after_set};
use crate::decimal::decimal;

verus! {

/// The cooldown key of the breakout alert.
pub const ALERT_COOLDOWN_KEY: &'static str = "BTCUSDT:donchian20";
/// The ticker of the breakout alert.
pub const ALERT_TICKER: &'static str = "BTCUSDT";
/// The rule of the breakout alert.
pub const ALERT_RULE: &'static str = "donchian20_breakout";
/// The severity of the breakout alert.
pub const ALERT_SEVERITY: &'static str = "actionable";
/// The cooldown, in minutes, after the breakout alert.
pub const ALERT_COOLDOWN_MINUTES: u64 = 30;

/// Where the engine stands.
#[derive(Debug)]
pub enum EngineState {
    /// Not started.
    Idle,
    /// Waiting for the newest stored timestamp of feed `feed`.
    AwaitLatest { feed: usize },
    /// Waiting for the bars of feed `feed`.
    AwaitBars { feed: usize },
    /// Waiting for the bars of feed `feed` to be stored.
    AwaitStored { feed: usize },
    /// Waiting to learn whether the alert's cooldown is running.
    AwaitCooling,
    /// Waiting for the alert to be stored.
    AwaitAlert,
    /// Waiting for the cooldown to be set.
    AwaitCooldown,
    /// Finished.
    Done,
    /// Stopped on an error.
    Failed,
}

/// What the caller reports back.
#[derive(Debug)]
pub enum EngineEvent {
    /// Begin a run.
    Start,
    /// The newest stored timestamp of the feed, if any bar is stored.
    Latest(Option<i64>),
    /// The number of new bars fetched for the feed.
    Bars { count: usize },
    /// The fetched bars are stored.
    Stored,
    /// Whether the alert's cooldown is running.
    Cooling(bool),
    /// The alert is stored.
    AlertStored,
    /// The cooldown is set.
    CooldownSet,
    /// The last action failed.
    Error,
}

/// What the caller is to do next.
#[derive(Debug)]
pub enum EngineAction {
    /// Read the newest stored timestamp of a feed.
    QueryLatest { ticker: &'static str, tf: &'static str },
    /// Fetch the bars of a feed newer than `last_ts`.
    FetchBars { source: MarketSource, ticker: &'static str, tf: &'static str, last_ts: Option<i64> },
    /// Store the bars just fetched for a feed.
    StoreBars { ticker: &'static str, tf: &'static str },
    /// Read whether the cooldown under `key` is running.
    CheckCooling { key: &'static str },
    /// Store an alert.
    StoreAlert { ticker: &'static str, rule: &'static str, severity: &'static str },
    /// Set the cooldown under `key`.
    SetCooldown { key: &'static str, minutes: u64 },
    /// Stop: the run succeeded.
    Finish,
    /// Stop: the run failed.
    Abort,
}

/// The step that starts feed `i`, or the cooldown check after the last feed.
pub open spec fn begin_feed(feeds: Seq<MarketFeed>, i: int) -> (EngineState, EngineAction) {
    if 0 <= i < feeds.len() {
        (EngineState::AwaitLatest { feed: i as usize }, EngineAction::QueryLatest { ticker: feeds[i].ticker, tf: feeds[i].tf })
    } else {
        (EngineState::AwaitCooling, EngineAction::CheckCooling { key: ALERT_COOLDOWN_KEY })
    }
}

/// The step that stops the run on an error.
pub open spec fn failed() -> (EngineState, EngineAction) {
    (EngineState::Failed, EngineAction::Abort)
}

/// The engine's transition on one event.
pub open spec fn next(feeds: Seq<MarketFeed>, s: EngineState, e: EngineEvent) -> (EngineState, EngineAction) {
    match s {
        EngineState::Done => (EngineState::Done, EngineAction::Finish),
        EngineState::Failed => failed(),
        EngineState::Idle => match e {
            EngineEvent::Start => begin_feed(feeds, 0),
            _ => failed(),
        },
        EngineState::AwaitLatest { feed } => match e {
            EngineEvent::Latest(last_ts) => if feed < feeds.len() {
                (EngineState::AwaitBars { feed }, EngineAction::FetchBars {
                    source: feeds[feed as int].source,
                    ticker: feeds[feed as int].ticker,
                    tf: feeds[feed as int].tf,
                    last_ts,
                })
            } else {
                failed()
            },
            _ => failed(),
        },
        EngineState::AwaitBars { feed } => match e {
            EngineEvent::Bars { count } => if feed < feeds.len() {
                if count == 0 {
                    begin_feed(feeds, feed + 1)
                } else {
                    (EngineState::AwaitStored { feed }, EngineAction::StoreBars {
                        ticker: feeds[feed as int].ticker,
                        tf: feeds[feed as int].tf,
                    })
                }
            } else {
                failed()
            },
            _ => failed(),
        },
        EngineState::AwaitStored { feed } => match e {
            EngineEvent::Stored => if feed < feeds.len() {
                begin_feed(feeds, feed + 1)
            } else {
                failed()
            },
            _ => failed(),
        },
        EngineState::AwaitCooling => match e {
            EngineEvent::Cooling(true) => (EngineState::Done, EngineAction::Finish),
            EngineEvent::Cooling(false) => (EngineState::AwaitAlert, EngineAction::StoreAlert {
                ticker: ALERT_TICKER,
                rule: ALERT_RULE,
                severity: ALERT_SEVERITY,
            }),
            _ => failed(),
        },
        EngineState::AwaitAlert => match e {
            EngineEvent::AlertStored => (EngineState::AwaitCooldown, EngineAction::SetCooldown {
                key: ALERT_COOLDOWN_KEY,
                minutes: ALERT_COOLDOWN_MINUTES,
            }),
            _ => failed(),
        },
        EngineState::AwaitCooldown => match e {
            EngineEvent::CooldownSet => (EngineState::Done, EngineAction::Finish),
            _ => failed(),
        },
    }
}

fn start_feed(feeds: &Vec<MarketFeed>, i: usize) -> (r: (EngineState, EngineAction))
    ensures
        r == begin_feed(feeds@, i as int),
{
    if i < feeds.len() {
        (EngineState::AwaitLatest { feed: i }, EngineAction::QueryLatest { ticker: feeds[i].ticker, tf: feeds[i].tf })
    } else {
        (EngineState::AwaitCooling, EngineAction::CheckCooling { key: ALERT_COOLDOWN_KEY })
    }
}

/// One step of the engine: the next state, and the action to perform.
pub fn engine_step(feeds: &Vec<MarketFeed>, state: EngineState, event: EngineEvent) -> (r: (EngineState, EngineAction))
    ensures
        r == next(feeds@, state, event),
{
    match state {
        EngineState::Done => (EngineState::Done, EngineAction::Finish),
        EngineState::Failed => (EngineState::Failed, EngineAction::Abort),
        EngineState::Idle => match event {
            EngineEvent::Start => start_feed(feeds, 0),
            _ => (EngineState::Failed, EngineAction::Abort),
        },
        EngineState::AwaitLatest { feed } => match event {
            EngineEvent::Latest(last_ts) => if feed < feeds.len() {
                (EngineState::AwaitBars { feed }, EngineAction::FetchBars {
                    source: feeds[feed].source,
                    ticker: feeds[feed].ticker,
                    tf: feeds[feed].tf,
                    last_ts,
                })
            } else {
                (EngineState::Failed, EngineAction::Abort)
            },
            _ => (EngineState::Failed, EngineAction::Abort),
        },
        EngineState::AwaitBars { feed } => match event {
            EngineEvent::Bars { count } => if feed < feeds.len() {
                if count == 0 {
                    start_feed(feeds, feed + 1)
                } else {
                    (EngineState::AwaitStored { feed }, EngineAction::StoreBars {
                        ticker: feeds[feed].ticker,
                        tf: feeds[feed].tf,
                    })
                }
            } else {
                (EngineState::Failed, EngineAction::Abort)
            },
            _ => (EngineState::Failed, EngineAction::Abort),
        },
        EngineState::AwaitStored { feed } => match event {
            EngineEvent::Stored => if feed < feeds.len() {
                start_feed(feeds, feed + 1)
            } else {
                (EngineState::Failed, EngineAction::Abort)
            },
            _ => (EngineState::Failed, EngineAction::Abort),
        },
        EngineState::AwaitCooling => match event {
            EngineEvent::Cooling(true) => (EngineState::Done, EngineAction::Finish),
            EngineEvent::Cooling(false) => (EngineState::AwaitAlert, EngineAction::StoreAlert {
                ticker: ALERT_TICKER,
                rule: ALERT_RULE,
                severity: ALERT_SEVERITY,
            }),
            _ => (EngineState::Failed, EngineAction::Abort),
        },
        EngineState::AwaitAlert => match event {
            EngineEvent::AlertStored => (EngineState::AwaitCooldown, EngineAction::SetCooldown {
                key: ALERT_COOLDOWN_KEY,
                minutes: ALERT_COOLDOWN_MINUTES,
            }),
            _ => (EngineState::Failed, EngineAction::Abort),
        },
        EngineState::AwaitCooldown => match event {
            EngineEvent::CooldownSet => (EngineState::Done, EngineAction::Finish),
            _ => (EngineState::Failed, EngineAction::Abort),
        },
    }
}

/// The alert is stored only right after the cooldown check reported that
/// its cooldown is not running.
pub proof fn lemma_alert_only_when_not_cooling(feeds: Seq<MarketFeed>, s: EngineState, e: EngineEvent)
    ensures
        next(feeds, s, e).1 is StoreAlert ==> s == EngineState::AwaitCooling && e == EngineEvent::Cooling(false),
{
}

/// A running cooldown ends the run without an alert.
pub proof fn lemma_cooling_skips_alert(feeds: Seq<MarketFeed>)
    ensures
        next(feeds, EngineState::AwaitCooling, EngineEvent::Cooling(true)) == (EngineState::Done, EngineAction::Finish),
{
}

/// Once the alert is stored, the next action sets its cooldown, for thirty
/// minutes, under the key that was checked.
pub proof fn lemma_cooldown_follows_alert(feeds: Seq<MarketFeed>, s: EngineState, e: EngineEvent)
    ensures
        next(feeds, s, e).1 is SetCooldown ==> s == EngineState::AwaitAlert && e == EngineEvent::AlertStored,
        next(feeds, EngineState::AwaitAlert, EngineEvent::AlertStored).1 == (EngineAction::SetCooldown {
            key: ALERT_COOLDOWN_KEY,
            minutes: 30,
        }),
{
}

/// An error stops a run that has not finished, and a stopped run stays stopped.
pub proof fn lemma_errors_stop(feeds: Seq<MarketFeed>, s: EngineState, e: EngineEvent)
    ensures
        e == EngineEvent::Error && s != EngineState::Done ==> next(feeds, s, e) == failed(),
        s == EngineState::Failed ==> next(feeds, s, e) == failed(),
        s == EngineState::Done ==> next(feeds, s, e) == (EngineState::Done, EngineAction::Finish),
{
}

/// A feed's bars are fetched from its own provider, newer than the
/// timestamp just read for it.
pub proof fn lemma_fetch_follows_latest(feeds: Seq<MarketFeed>, i: usize, last_ts: Option<i64>)
    requires
        i < feeds.len(),
    ensures
        next(feeds, EngineState::AwaitLatest { feed: i }, EngineEvent::Latest(last_ts)) == (
            EngineState::AwaitBars { feed: i },
            EngineAction::FetchBars {
                source: feeds[i as int].source,
                ticker: feeds[i as int].ticker,
                tf: feeds[i as int].tf,
                last_ts,
            },
        ),
{
}

/// Bars are stored only when some were fetched; a feed without new bars
/// moves on to the next feed.
pub proof fn lemma_store_only_new_bars(feeds: Seq<MarketFeed>, s: EngineState, e: EngineEvent)
    ensures
        next(feeds, s, e).1 is StoreBars ==> s is AwaitBars && (e matches EngineEvent::Bars { count } && count > 0),
        (s matches EngineState::AwaitBars { feed } && feed < feeds.len() && e == EngineEvent::Bars { count: 0 })
            ==> next(feeds, s, e) == begin_feed(feeds, s->AwaitBars_feed + 1),
{
}

/// The feeds are taken in order, and the cooldown is checked only after the
/// last of them.
pub proof fn lemma_feeds_in_order(feeds: Seq<MarketFeed>, s: EngineState, e: EngineEvent)
    requires
        feeds.len() <= usize::MAX,
    ensures
        next(feeds, s, e).0 matches EngineState::AwaitLatest { feed } ==> (
            (s is Idle && feed == 0)
            || (s matches EngineState::AwaitBars { feed: f } && feed == f + 1)
            || (s matches EngineState::AwaitStored { feed: f } && feed == f + 1)),
        next(feeds, s, e).1 is CheckCooling ==> (
            (s is Idle && feeds.len() == 0)
            || (s matches EngineState::AwaitBars { feed: f } && f + 1 == feeds.len())
            || (s matches EngineState::AwaitStored { feed: f } && f + 1 == feeds.len())),
{
}

/// An alert is not repeated within its cooldown: once a run has stored the
/// alert and set its cooldown at `set_at`, a later run that checks the
/// cooldown before it ends reads it as running, and ends without storing
/// another alert.
pub proof fn lemma_no_repeat_within_cooldown(feeds: Seq<MarketFeed>, set_at: u64, now: u64)
    requires
        now < cooldown_end(set_at, ALERT_COOLDOWN_MINUTES),
    ensures
        cooling(Some(decimal(cooldown_end(set_at, ALERT_COOLDOWN_MINUTES) as nat)), now),
        next(
            feeds,
            EngineState::AwaitCooling,
            EngineEvent::Cooling(cooling(Some(decimal(cooldown_end(set_at, ALERT_COOLDOWN_MINUTES) as nat)), now)),
        ) == (EngineState::Done, EngineAction::Finish),
{
    lemma_cooling_after_set(ALERT_COOLDOWN_MINUTES, set_at, now);
}

/// What comes after feed `f` is done: the newest stored timestamp of the
/// next feed, or, after the last feed, the cooldown check of the alert.
pub open spec fn after_feed(feeds: Seq<MarketFeed>, f: int) -> (EngineState, EngineAction) {
    if f + 1 < feeds.len() {
        (
            EngineState::AwaitLatest { feed: (f + 1) as usize },
            EngineAction::QueryLatest { ticker: feeds[f + 1].ticker, tf: feeds[f + 1].tf },
        )
    } else {
        (EngineState::AwaitCooling, EngineAction::CheckCooling { key: ALERT_COOLDOWN_KEY })
    }
}

/// Once a feed's bars are stored, the run goes on to the next feed; after
/// the last feed it checks the alert's cooldown.
pub proof fn lemma_stored_moves_on(feeds: Seq<MarketFeed>, f: usize)
    requires
        f < feeds.len(),
    ensures
        next(feeds, EngineState::AwaitStored { feed: f }, EngineEvent::Stored) == after_feed(feeds, f as int),
        f + 1 == feeds.len() ==> next(feeds, EngineState::AwaitStored { feed: f }, EngineEvent::Stored) == (
            EngineState::AwaitCooling,
            EngineAction::CheckCooling { key: ALERT_COOLDOWN_KEY },
        ),
{
}

/// For every feed, fetched bars are stored exactly when some were fetched:
/// with new bars the next action stores them for that feed, and without any
/// the run goes on as after a stored feed.
pub proof fn lemma_bars_stored_iff_fetched(feeds: Seq<MarketFeed>, f: usize, count: usize)
    requires
        f < feeds.len(),
    ensures
        count > 0 ==> next(feeds, EngineState::AwaitBars { feed: f }, EngineEvent::Bars { count }) == (
            EngineState::AwaitStored { feed: f },
            EngineAction::StoreBars { ticker: feeds[f as int].ticker, tf: feeds[f as int].tf },
        ),
        count == 0 ==> next(feeds, EngineState::AwaitBars { feed: f }, EngineEvent::Bars { count }) == after_feed(feeds, f as int),
{
}

} // verus!
