//! Alert cooldowns: a key is cooling until the time stored under
//! `cooldown:<key>`, written as decimal seconds.

use vstd::prelude::*;
use vstd::string::*;
use crate::decimal::{decimal, spec_parse_u64, u64_to_decimal, parse_u64, lemma_parse_u64_decimal};

verus! {

/// The store key of a cooldown.
pub open spec fn cooldown_key_of(key: Seq<char>) -> Seq<char> {
    "cooldown:"@ + key
}

/// The end of a cooldown of `minutes` set at `now`, in seconds, saturating.
pub open spec fn cooldown_end(now: u64, minutes: u64) -> u64 {
    let span: int = if minutes * 60 > u64::MAX { u64::MAX as int } else { minutes * 60 };
    if now + span > u64::MAX {
        u64::MAX
    } else {
        (now + span) as u64
    }
}

/// Whether a key whose stored value is `stored` is cooling at `now`: a value
/// that is not a `u64` counts as 0.
pub open spec fn cooling(stored: Option<Seq<char>>, now: u64) -> bool {
    match stored {
        Some(text) => now < match spec_parse_u64(text) {
            Some(until) => until,
            None => 0,
        },
        None => false,
    }
}

/// The store write that sets a cooldown, and the reply that reports it.
pub struct CooldownWrite {
    pub key: String,
    pub value: String,
    pub message: String,
}

/// The store key of a cooldown.
pub fn cooldown_key(key: &str) -> (r: String)
    ensures
        r@ == cooldown_key_of(key@),
{
    let mut k = String::from_str("cooldown:");
    k.append(key);
    k
}

/// The end of a cooldown of `minutes` set at `now`.
pub fn cooldown_until(now: u64, minutes: u64) -> (r: u64)
    ensures
        r == cooldown_end(now, minutes),
{
    let span: u64 = if minutes > u64::MAX / 60 {
        assert(minutes * 60 > u64::MAX) by (nonlinear_arith)
            requires minutes > u64::MAX / 60;
        u64::MAX
    } else {
        assert(minutes * 60 <= u64::MAX) by (nonlinear_arith)
            requires minutes <= u64::MAX / 60;
        minutes * 60
    };
    now.saturating_add(span)
}

/// Sets a cooldown on `key` for `minutes` at time `now`: the value stored
/// under `cooldown:<key>` is the decimal end of the cooldown, and the reply
/// reads `cooldown set to <minutes>m`.
pub fn set_cooldown(key: &str, minutes: u64, now: u64) -> (r: CooldownWrite)
    ensures
        r.key@ == cooldown_key_of(key@),
        r.value@ == decimal(cooldown_end(now, minutes) as nat),
        r.message@ == "cooldown set to "@ + decimal(minutes as nat) + "m"@,
{
    let until = cooldown_until(now, minutes);
    let mut message = String::from_str("cooldown set to ");
    let m = u64_to_decimal(minutes);
    message.append(m.as_str());
    message.append("m");
    CooldownWrite { key: cooldown_key(key), value: u64_to_decimal(until), message }
}

/// Whether a key is cooling at `now`, given what is stored under its
/// cooldown key.
pub fn is_cooling(stored: Option<&str>, now: u64) -> (r: bool)
    ensures
        r == cooling(match stored { Some(s) => Some(s@), None => None }, now),
{
    match stored {
        Some(text) => {
            let until = match parse_u64(text) {
                Some(u) => u,
                None => 0,
            };
            now < until
        },
        None => false,
    }
}

/// A key is cooling after a cooldown is set on it exactly while the time is
/// before the end of the cooldown.
pub proof fn lemma_cooling_after_set(minutes: u64, set_at: u64, now: u64)
    ensures
        cooling(Some(decimal(cooldown_end(set_at, minutes) as nat)), now) == (now < cooldown_end(set_at, minutes)),
{
    lemma_parse_u64_decimal(cooldown_end(set_at, minutes));
}

/// Right after a cooldown of at least one minute is set, the key is cooling,
/// unless the clock is at its last second.
pub proof fn lemma_cooling_right_after_set(minutes: u64, now: u64)
    requires
        minutes > 0,
        now < u64::MAX,
    ensures
        cooling(Some(decimal(cooldown_end(now, minutes) as nat)), now),
{
    lemma_cooling_after_set(minutes, now, now);
}

/// A cooldown ends: from its end on, the key is no longer cooling.
pub proof fn lemma_cooldown_expires(minutes: u64, set_at: u64, now: u64)
    requires
        now >= cooldown_end(set_at, minutes),
    ensures
        !cooling(Some(decimal(cooldown_end(set_at, minutes) as nat)), now),
{
    lemma_cooling_after_set(minutes, set_at, now);
}

/// Cooldowns of different keys are stored under different keys.
pub proof fn lemma_cooldown_keys_distinct(a: Seq<char>, b: Seq<char>)
    requires
        a != b,
    ensures
        cooldown_key_of(a) != cooldown_key_of(b),
{
    let p = "cooldown:"@;
    if cooldown_key_of(a) == cooldown_key_of(b) {
        assert(a =~= cooldown_key_of(a).skip(p.len() as int));
        assert(b =~= cooldown_key_of(b).skip(p.len() as int));
    }
}

} // verus!
