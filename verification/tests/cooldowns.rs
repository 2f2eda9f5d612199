use market_insights::cooldown::{cooldown_key, cooldown_until, is_cooling, set_cooldown};

#[test]
fn cooldown_write_and_message() {
    let w = set_cooldown("BTCUSDT:donchian20", 30, 1_700_000_000);
    assert_eq!(w.key, "cooldown:BTCUSDT:donchian20");
    assert_eq!(w.value, "1700001800");
    assert_eq!(w.message, "cooldown set to 30m");
}

#[test]
fn cooling_until_the_end() {
    let w = set_cooldown("k", 5, 1000);
    assert!(is_cooling(Some(&w.value), 1000));
    assert!(is_cooling(Some(&w.value), 1299));
    assert!(!is_cooling(Some(&w.value), 1300));
    assert!(!is_cooling(None, 0));
}

#[test]
fn unreadable_value_is_not_cooling() {
    assert!(!is_cooling(Some("soon"), 0));
    assert!(!is_cooling(Some(""), 0));
    assert!(is_cooling(Some("+10"), 9));
}

#[test]
fn cooldown_end_saturates() {
    assert_eq!(cooldown_until(u64::MAX - 10, 1), u64::MAX);
    assert_eq!(cooldown_until(5, u64::MAX), u64::MAX);
    assert_eq!(cooldown_until(5, 0), 5);
    assert_eq!(cooldown_key(""), "cooldown:");
}
