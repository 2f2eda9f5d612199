use market_insights::alerts::AlertRow;
use market_insights::api::{
    bad_request, contains, insert_alert_reply, is_cooling_reply, json_api_base, json_api_route, list_alerts_reply,
    set_cooldown_reply, starts_with, trim_trailing_digits, ApiRoute, Reply, ReplyBody, SetCooldownJson,
};

#[test]
fn trailing_digits_are_trimmed() {
    assert_eq!(trim_trailing_digits("/api/set_cooldown1234"), "/api/set_cooldown");
    assert_eq!(trim_trailing_digits("12345"), "");
    assert_eq!(trim_trailing_digits("/a1b2"), "/a1b");
    assert_eq!(trim_trailing_digits(""), "");
}

#[test]
fn text_search() {
    assert!(starts_with("/api/x", "/api/"));
    assert!(!starts_with("/ap", "/api/"));
    assert!(contains("application/json; charset=utf-8", "application/json"));
    assert!(contains("abc", ""));
    assert!(!contains("text/plain", "application/json"));
}

#[test]
fn only_json_posts_under_api_are_taken() {
    assert_eq!(json_api_base(true, "/api/is_cooling", "application/json"), Some("/api/is_cooling".to_string()));
    assert_eq!(json_api_base(true, "/api/SayHello123", "application/json"), Some("/api/SayHello".to_string()));
    assert_eq!(json_api_base(false, "/api/is_cooling", "application/json"), None);
    assert_eq!(json_api_base(true, "/other", "application/json"), None);
    assert_eq!(json_api_base(true, "/api/is_cooling", "text/plain"), None);
    assert_eq!(json_api_base(true, "/api/is_cooling", ""), None);
}

#[test]
fn routes_need_a_body_and_a_known_path() {
    assert_eq!(json_api_route("/api/set_cooldown", 10), Some(ApiRoute::SetCooldown));
    assert_eq!(json_api_route("/api/is_cooling", 10), Some(ApiRoute::IsCooling));
    assert_eq!(json_api_route("/api/insert_alert", 10), Some(ApiRoute::InsertAlert));
    assert_eq!(json_api_route("/api/list_alerts", 10), Some(ApiRoute::ListAlerts));
    assert_eq!(json_api_route("/api/list_alerts", 0), None);
    assert_eq!(json_api_route("/api/SayHello", 5), None);
}

#[test]
fn replies() {
    match bad_request("expected value".to_string()) {
        Reply::Text { status, message } => {
            assert_eq!(status, 400);
            assert_eq!(message, "expected value");
        },
        other => panic!("unexpected {:?}", other),
    }
    let p = SetCooldownJson { key: "k".to_string(), minutes: 7 };
    assert!(matches!(set_cooldown_reply(&p, Ok(())), Reply::Json { status: 200, body: ReplyBody::CooldownSet { minutes: 7 } }));
    assert!(matches!(set_cooldown_reply(&p, Err("kv".to_string())), Reply::Text { status: 500, .. }));
    assert!(matches!(is_cooling_reply(Ok(true)), Reply::Json { status: 200, body: ReplyBody::Cooling { cooling: true } }));
    assert!(matches!(insert_alert_reply(Ok(())), Reply::Json { status: 200, body: ReplyBody::AlertCreated }));
    let rows = vec![AlertRow {
        ts: 1,
        ticker: "T".to_string(),
        rule: "r".to_string(),
        severity: "info".to_string(),
        details: "{}".to_string(),
    }];
    match list_alerts_reply(Ok(rows)) {
        Reply::Json { status: 200, body: ReplyBody::Alerts(rows) } => assert_eq!(rows.len(), 1),
        other => panic!("unexpected {:?}", other),
    }
    match list_alerts_reply(Err("d1 down".to_string())) {
        Reply::Text { status, message } => {
            assert_eq!(status, 500);
            assert_eq!(message, "d1 down");
        },
        other => panic!("unexpected {:?}", other),
    }
}
