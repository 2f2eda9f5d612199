//! Alert rows, as stored, listed and shown.

use vstd::prelude::*;
use vstd::string::*;
use crate::decimal::{decimal_int, i64_to_decimal};

verus! {

/// One stored alert.
#[derive(Debug)]
pub struct AlertRow {
    pub ts: i64,
    pub ticker: String,
    pub rule: String,
    pub severity: String,
    pub details: String,
}

/// An alert as the listing hands it out: timestamp, ticker, rule, severity
/// and details.
pub type AlertTuple = (i64, String, String, String, String);

/// The tuple holds the fields of the row.
pub open spec fn tuple_of_row(t: AlertTuple, row: AlertRow) -> bool {
    t.0 == row.ts && t.1@ == row.ticker@ && t.2@ == row.rule@ && t.3@ == row.severity@ && t.4@ == row.details@
}

/// The row stored for an alert raised at `now` (seconds): the timestamp is
/// `now` taken as an `i64`.
pub fn insert_alert(now: u64, ticker: &str, rule: &str, severity: &str, details_json: &str) -> (r: AlertRow)
    ensures
        r.ts == now as i64,
        r.ticker@ == ticker@,
        r.rule@ == rule@,
        r.severity@ == severity@,
        r.details@ == details_json@,
{
    AlertRow {
        ts: now as i64,
        ticker: String::from_str(ticker),
        rule: String::from_str(rule),
        severity: String::from_str(severity),
        details: String::from_str(details_json),
    }
}

/// The listing of stored alerts: each row as a tuple, in the same order.
pub fn list_alerts(rows: &Vec<AlertRow>) -> (r: Vec<AlertTuple>)
    ensures
        r@.len() == rows@.len(),
        forall|i: int| 0 <= i < rows@.len() ==> tuple_of_row(#[trigger] r@[i], rows@[i]),
{
    let mut out: Vec<AlertTuple> = Vec::new();
    let mut i: usize = 0;
    while i < rows.len()
        invariant
            i <= rows@.len(),
            out@.len() == i,
            forall|j: int| 0 <= j < i ==> tuple_of_row(#[trigger] out@[j], rows@[j]),
        decreases rows.len() - i,
    {
        let row = &rows[i];
        out.push((row.ts, row.ticker.clone(), row.rule.clone(), row.severity.clone(), row.details.clone()));
        i = i + 1;
    }
    out
}

/// The line that shows an alert: `ts | ticker | rule | severity | details`.
pub fn alert_line(alert: &AlertTuple) -> (r: String)
    ensures
        r@ == decimal_int(alert.0 as int) + " | "@ + alert.1@ + " | "@ + alert.2@ + " | "@ + alert.3@ + " | "@
            + alert.4@,
{
    let mut line = i64_to_decimal(alert.0);
    line.append(" | ");
    line.append(alert.1.as_str());
    line.append(" | ");
    line.append(alert.2.as_str());
    line.append(" | ");
    line.append(alert.3.as_str());
    line.append(" | ");
    line.append(alert.4.as_str());
    line
}

/// The greeting of the API for a number.
pub fn say_hello(num: i32) -> (r: String)
    ensures
        r@ == "Hello from the API!!! I got "@ + decimal_int(num as int),
{
    let mut s = String::from_str("Hello from the API!!! I got ");
    let n = i64_to_decimal(num as i64);
    s.append(n.as_str());
    s
}

} // verus!
