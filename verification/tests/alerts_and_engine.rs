use market_insights::alerts::{alert_line, insert_alert, list_alerts, say_hello};
use market_insights::engine::{engine_step, EngineAction, EngineEvent, EngineState};
use market_insights::feeds::{latest_stored_ts, market_feeds, MarketSource};

#[test]
fn greeting() {
    assert_eq!(say_hello(3), "Hello from the API!!! I got 3");
    assert_eq!(say_hello(-12), "Hello from the API!!! I got -12");
}

#[test]
fn alert_rows_are_listed_and_shown() {
    let row = insert_alert(1_700_000_000, "TEST", "rule_x", "info", "{\"demo\":true}");
    assert_eq!(row.ts, 1_700_000_000);
    let wrapped = insert_alert(u64::MAX, "T", "r", "s", "d");
    assert_eq!(wrapped.ts, -1);
    let listed = list_alerts(&vec![row]);
    assert_eq!(
        listed,
        vec![(1_700_000_000, "TEST".to_string(), "rule_x".to_string(), "info".to_string(), "{\"demo\":true}".to_string())]
    );
    assert_eq!(alert_line(&listed[0]), "1700000000 | TEST | rule_x | info | {\"demo\":true}");
}

#[test]
fn feeds_and_latest() {
    let feeds = market_feeds();
    assert_eq!(feeds.len(), 2);
    assert_eq!((feeds[0].ticker, feeds[0].tf, feeds[0].source), ("SPY", "1d", MarketSource::AlphaVantage));
    assert_eq!((feeds[1].ticker, feeds[1].tf, feeds[1].source), ("SPY", "1d", MarketSource::Finnhub));
    assert_eq!(latest_stored_ts(&vec![Some(5), Some(9)]), Some(5));
    assert_eq!(latest_stored_ts(&vec![None]), None);
    assert_eq!(latest_stored_ts(&vec![]), None);
}

fn run(events: Vec<EngineEvent>) -> Vec<String> {
    let feeds = market_feeds();
    let mut state = EngineState::Idle;
    let mut actions = vec![];
    for e in events {
        let (s, a) = engine_step(&feeds, state, e);
        state = s;
        actions.push(format!("{:?}", a));
    }
    actions
}

#[test]
fn engine_full_run_raises_alert_and_cooldown() {
    let actions = run(vec![
        EngineEvent::Start,
        EngineEvent::Latest(Some(10)),
        EngineEvent::Bars { count: 2 },
        EngineEvent::Stored,
        EngineEvent::Latest(None),
        EngineEvent::Bars { count: 0 },
        EngineEvent::Cooling(false),
        EngineEvent::AlertStored,
        EngineEvent::CooldownSet,
    ]);
    let expected: Vec<String> = vec![
        EngineAction::QueryLatest { ticker: "SPY", tf: "1d" },
        EngineAction::FetchBars { source: MarketSource::AlphaVantage, ticker: "SPY", tf: "1d", last_ts: Some(10) },
        EngineAction::StoreBars { ticker: "SPY", tf: "1d" },
        EngineAction::QueryLatest { ticker: "SPY", tf: "1d" },
        EngineAction::FetchBars { source: MarketSource::Finnhub, ticker: "SPY", tf: "1d", last_ts: None },
        EngineAction::CheckCooling { key: "BTCUSDT:donchian20" },
        EngineAction::StoreAlert { ticker: "BTCUSDT", rule: "donchian20_breakout", severity: "actionable" },
        EngineAction::SetCooldown { key: "BTCUSDT:donchian20", minutes: 30 },
        EngineAction::Finish,
    ]
    .into_iter()
    .map(|a| format!("{:?}", a))
    .collect();
    assert_eq!(actions, expected);
}

#[test]
fn engine_skips_alert_while_cooling() {
    let actions = run(vec![
        EngineEvent::Start,
        EngineEvent::Latest(None),
        EngineEvent::Bars { count: 0 },
        EngineEvent::Latest(None),
        EngineEvent::Bars { count: 0 },
        EngineEvent::Cooling(true),
    ]);
    assert_eq!(actions.last().unwrap(), &format!("{:?}", EngineAction::Finish));
    assert_eq!(actions.len(), 6);
}

#[test]
fn engine_stops_on_error() {
    let actions = run(vec![EngineEvent::Start, EngineEvent::Latest(Some(1)), EngineEvent::Error, EngineEvent::Stored]);
    assert_eq!(actions[2], format!("{:?}", EngineAction::Abort));
    assert_eq!(actions[3], format!("{:?}", EngineAction::Abort));
}
