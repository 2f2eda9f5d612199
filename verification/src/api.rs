//! The JSON API served beside the server functions: which requests it takes,
//! and what it replies.

use vstd::prelude::*;
use vstd::string::*;
use crate::alerts::AlertRow;
use crate::decimal::{is_digit, chars_of};

verus! {

/// The operations of the JSON API.
#[derive(Clone, Copy, Debug, PartialEq, Eq, Structural)]
pub enum ApiRoute {
    SetCooldown,
    IsCooling,
    InsertAlert,
    ListAlerts,
}

/// The body of `POST /api/set_cooldown`.
#[derive(Debug)]
pub struct SetCooldownJson {
    pub key: String,
    pub minutes: u64,
}

/// The body of `POST /api/is_cooling`.
#[derive(Debug)]
pub struct KeyPayload {
    pub key: String,
}

/// The body of `POST /api/insert_alert`.
#[derive(Debug)]
pub struct InsertAlertJson {
    pub ticker: String,
    pub rule: String,
    pub severity: String,
    pub details_json: String,
}

/// The body of `POST /api/list_alerts`.
#[derive(Debug)]
pub struct ListAlertsJson {
    pub limit: i64,
}

/// The JSON document of a successful reply.
#[derive(Debug)]
pub enum ReplyBody {
    /// `{"status": "cooldown set", "minutes": minutes}`
    CooldownSet { minutes: u64 },
    /// `{"cooling": cooling}`
    Cooling { cooling: bool },
    /// `{"status": "alert created"}`
    AlertCreated,
    /// The rows, as a JSON array.
    Alerts(Vec<AlertRow>),
}

/// An HTTP reply of the JSON API.
#[derive(Debug)]
pub enum Reply {
    /// A JSON document with the given status.
    Json { status: u16, body: ReplyBody },
    /// A plain-text message with the given status.
    Text { status: u16, message: String },
}

/// `s` with its trailing ASCII digits removed.
pub open spec fn trim_digits(s: Seq<char>) -> Seq<char>
    decreases s.len(),
{
    if s.len() > 0 && is_digit(s.last()) {
        trim_digits(s.drop_last())
    } else {
        s
    }
}

/// `s` begins with `p`.
pub open spec fn has_prefix(s: Seq<char>, p: Seq<char>) -> bool {
    p.len() <= s.len() && s.take(p.len() as int) == p
}

/// `p` occurs in `s`.
pub open spec fn has_infix(s: Seq<char>, p: Seq<char>) -> bool {
    exists|i: int| 0 <= i && i + p.len() <= s.len() && #[trigger] s.subrange(i, i + p.len()) == p
}

/// The path a request is routed by: the request path without trailing
/// digits, if the request is a POST, that path lies under `/api/` and the
/// content type mentions `application/json`.
pub open spec fn api_base(is_post: bool, path: Seq<char>, content_type: Seq<char>) -> Option<Seq<char>> {
    let base = trim_digits(path);
    if is_post && has_prefix(base, "/api/"@) && has_infix(content_type, "application/json"@) {
        Some(base)
    } else {
        None
    }
}

/// The operation a routing path names.
pub open spec fn route_of(base: Seq<char>) -> Option<ApiRoute> {
    if base == "/api/set_cooldown"@ {
        Some(ApiRoute::SetCooldown)
    } else if base == "/api/is_cooling"@ {
        Some(ApiRoute::IsCooling)
    } else if base == "/api/insert_alert"@ {
        Some(ApiRoute::InsertAlert)
    } else if base == "/api/list_alerts"@ {
        Some(ApiRoute::ListAlerts)
    } else {
        None
    }
}

/// The path without its trailing ASCII digits, as
/// `trim_end_matches(|c: char| c.is_ascii_digit())` leaves it.
pub fn trim_trailing_digits(path: &str) -> (r: String)
    ensures
        r@ == trim_digits(path@),
{
    let cs = chars_of(path);
    let mut e: usize = cs.len();
    assert(cs@.take(cs.len() as int) =~= cs@);
    while e > 0 && cs[e - 1] >= '0' && cs[e - 1] <= '9'
        invariant
            e <= cs.len(),
            cs@ == path@,
            trim_digits(cs@.take(e as int)) == trim_digits(path@),
        decreases e,
    {
        proof {
            let t = cs@.take(e as int);
            assert(t.drop_last() =~= cs@.take(e - 1));
        }
        e = e - 1;
    }
    proof {
        let t = cs@.take(e as int);
        assert(trim_digits(t) == t);
        assert(path@.subrange(0, e as int) =~= t);
    }
    String::from_str(path.substring_char(0, e))
}

/// `s` begins with `p`.
pub fn starts_with(s: &str, p: &str) -> (r: bool)
    ensures
        r == has_prefix(s@, p@),
{
    let a = chars_of(s);
    let b = chars_of(p);
    if b.len() > a.len() {
        return false;
    }
    let mut i: usize = 0;
    while i < b.len()
        invariant
            b.len() <= a.len(),
            a@ == s@,
            b@ == p@,
            i <= b.len(),
            forall|j: int| 0 <= j < i ==> a@[j] == b@[j],
        decreases b.len() - i,
    {
        if a[i] != b[i] {
            assert(s@.take(p@.len() as int)[i as int] != p@[i as int]);
            return false;
        }
        i = i + 1;
    }
    assert(s@.take(p@.len() as int) =~= p@);
    true
}

/// `p` occurs in `s`.
pub fn contains(s: &str, p: &str) -> (r: bool)
    ensures
        r == has_infix(s@, p@),
{
    let a = chars_of(s);
    let b = chars_of(p);
    if b.len() > a.len() {
        return false;
    }
    let mut i: usize = 0;
    while i <= a.len() - b.len()
        invariant
            b.len() <= a.len(),
            a@ == s@,
            b@ == p@,
            i <= a.len() - b.len() + 1,
            forall|k: int| 0 <= k < i ==> #[trigger] s@.subrange(k, k + p@.len()) != p@,
        decreases a.len() - i,
    {
        let mut j: usize = 0;
        let mut same = true;
        while j < b.len()
            invariant
                b.len() <= a.len(),
                i + b.len() <= a.len(),
                a@ == s@,
                b@ == p@,
                j <= b.len(),
                same == (forall|m: int| 0 <= m < j ==> a@[i + m] == b@[m]),
            decreases b.len() - j,
        {
            if a[i + j] != b[j] {
                same = false;
            }
            j = j + 1;
        }
        if same {
            assert(s@.subrange(i as int, i + p@.len()) =~= p@);
            return true;
        }
        assert(s@.subrange(i as int, i + p@.len()) != p@) by {
            let m = choose|m: int| 0 <= m < b.len() && a@[i + m] != b@[m];
            assert(s@.subrange(i as int, i + p@.len())[m] == a@[i + m]);
        }
        i = i + 1;
    }
    false
}

/// The first decision on a request: the routing path, if the JSON API takes
/// the request at all. The body is read only after this.
pub fn json_api_base(is_post: bool, path: &str, content_type: &str) -> (r: Option<String>)
    ensures
        match r {
            Some(b) => api_base(is_post, path@, content_type@) == Some(b@),
            None => api_base(is_post, path@, content_type@) is None,
        },
{
    if !is_post {
        return None;
    }
    let base = trim_trailing_digits(path);
    if !starts_with(base.as_str(), "/api/") {
        return None;
    }
    if !contains(content_type, "application/json") {
        return None;
    }
    Some(base)
}

/// The second decision on a request, once its body is read: the operation,
/// if the body is not empty and the path names one.
pub fn json_api_route(base: &str, body_len: usize) -> (r: Option<ApiRoute>)
    ensures
        r == (if body_len == 0 { None } else { route_of(base@) }),
{
    if body_len == 0 {
        None
    } else if crate::json::text_eq(base, "/api/set_cooldown") {
        Some(ApiRoute::SetCooldown)
    } else if crate::json::text_eq(base, "/api/is_cooling") {
        Some(ApiRoute::IsCooling)
    } else if crate::json::text_eq(base, "/api/insert_alert") {
        Some(ApiRoute::InsertAlert)
    } else if crate::json::text_eq(base, "/api/list_alerts") {
        Some(ApiRoute::ListAlerts)
    } else {
        None
    }
}

/// A `400 Bad Request` with a plain-text message.
pub fn bad_request(message: String) -> (r: Reply)
    ensures
        r == (Reply::Text { status: 400, message }),
{
    Reply::Text { status: 400, message }
}

/// A `500 Internal Server Error` with a plain-text message.
pub fn internal_error(message: String) -> (r: Reply)
    ensures
        r == (Reply::Text { status: 500, message }),
{
    Reply::Text { status: 500, message }
}

/// A JSON document with the given status.
pub fn json_response(status: u16, body: ReplyBody) -> (r: Reply)
    ensures
        r == (Reply::Json { status, body }),
{
    Reply::Json { status, body }
}

/// The reply to a `set_cooldown` call, once the cooldown was written or failed.
pub fn set_cooldown_reply(payload: &SetCooldownJson, outcome: Result<(), String>) -> (r: Reply)
    ensures
        match outcome {
            Ok(_) => r == (Reply::Json { status: 200, body: ReplyBody::CooldownSet { minutes: payload.minutes } }),
            Err(e) => r == (Reply::Text { status: 500, message: e }),
        },
{
    match outcome {
        Ok(_) => json_response(200, ReplyBody::CooldownSet { minutes: payload.minutes }),
        Err(e) => internal_error(e),
    }
}

/// The reply to an `is_cooling` call, once the cooldown was read or failed.
pub fn is_cooling_reply(outcome: Result<bool, String>) -> (r: Reply)
    ensures
        match outcome {
            Ok(cooling) => r == (Reply::Json { status: 200, body: ReplyBody::Cooling { cooling } }),
            Err(e) => r == (Reply::Text { status: 500, message: e }),
        },
{
    match outcome {
        Ok(cooling) => json_response(200, ReplyBody::Cooling { cooling }),
        Err(e) => internal_error(e),
    }
}

/// The reply to an `insert_alert` call, once the alert was stored or failed.
pub fn insert_alert_reply(outcome: Result<(), String>) -> (r: Reply)
    ensures
        match outcome {
            Ok(_) => r == (Reply::Json { status: 200, body: ReplyBody::AlertCreated }),
            Err(e) => r == (Reply::Text { status: 500, message: e }),
        },
{
    match outcome {
        Ok(_) => json_response(200, ReplyBody::AlertCreated),
        Err(e) => internal_error(e),
    }
}

/// The reply to a `list_alerts` call, once the rows were read or failed.
pub fn list_alerts_reply(outcome: Result<Vec<AlertRow>, String>) -> (r: Reply)
    ensures
        match outcome {
            Ok(rows) => r == (Reply::Json { status: 200, body: ReplyBody::Alerts(rows) }),
            Err(e) => r == (Reply::Text { status: 500, message: e }),
        },
{
    match outcome {
        Ok(rows) => json_response(200, ReplyBody::Alerts(rows)),
        Err(e) => internal_error(e),
    }
}

} // verus!
