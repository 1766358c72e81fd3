//! Heuristic field extraction from heterogeneous upstream JSON shapes:
//! ordered-candidate probing for strings and timestamps, and
//! numeric-or-numeric-string reads.
//!
//! A present candidate key decides string extraction on its own; only a
//! missing key moves to the next candidate. Timestamp extraction instead
//! moves on past any candidate that fails to parse.

use vstd::prelude::*;

use crate::dates::spec_parse_naive_ms;
use crate::digits::{spec_num_string, spec_parse_micros};
use crate::json::{lookup, JsonValue};

verus! {

/// What chrono parses a string to, as UTC epoch milliseconds: a fixed
/// function of the characters alone.
pub uninterp spec fn tz_parse_ms(s: Seq<char>) -> Option<i64>;

/// What chrono makes of a whole-second epoch count: a fixed function of
/// the count alone.
pub uninterp spec fn epoch_single_ms(n: i64) -> Option<i64>;

/// Relies on chrono's `FromStr` for `DateTime<Utc>` (a relaxed RFC 3339
/// form) together with `timestamp_millis`: the outcome depends on the
/// characters alone.
#[verifier::external_body]
fn parse_tz_ms(s: &str) -> (r: Option<i64>)
    ensures
        r == tz_parse_ms(s@),
{
    s.parse::<chrono::DateTime<chrono::Utc>>().ok().map(|d| d.timestamp_millis())
}

/// Relies on chrono's `Utc.timestamp_opt(n, 0)`: it is `Single` for any
/// in-range second count (years 1 through 9999 are in range, the
/// documented range being about 262,000 years either way) and `None`
/// outside the range; `timestamp_millis` of a whole-second time is the
/// seconds times one thousand.
#[verifier::external_body]
fn epoch_seconds_ms(n: i64) -> (r: Option<i64>)
    ensures
        r == epoch_single_ms(n),
        r matches Some(ms) ==> ms == n * 1000,
        -62135596800 <= n <= 253402300799 ==> r is Some,
{
    chrono::TimeZone::timestamp_opt(&chrono::Utc, n, 0).single().map(|d| d.timestamp_millis())
}

/// The views of a list of candidate keys.
pub open spec fn key_views(ks: Seq<&str>) -> Seq<Seq<char>> {
    ks.map_values(|k: &str| k@)
}

/// Ordered-candidate string extraction: the first present candidate key
/// decides. A non-empty string is taken as is, a number by its decimal
/// rendering; anything else (an empty string included) yields nothing.
pub open spec fn spec_s_pick(v: JsonValue, keys: Seq<Seq<char>>) -> Option<Seq<char>>
    decreases keys.len(),
{
    if keys.len() == 0 {
        None
    } else {
        match lookup(v, keys[0]) {
            Some(x) => match x {
                JsonValue::Str(s) => if s@.len() > 0 {
                    Some(s@)
                } else {
                    None
                },
                JsonValue::Num(m) => Some(spec_num_string(m as int)),
                _ => None,
            },
            None => spec_s_pick(v, keys.skip(1)),
        }
    }
}

/// Scans candidate keys in priority order for a string-like field.
pub fn s_pick(v: &JsonValue, keys: &[&str]) -> (r: Option<String>)
    ensures
        match r {
            Some(out) => spec_s_pick(*v, key_views(keys@)) == Some(out@),
            None => spec_s_pick(*v, key_views(keys@)) is None,
        },
{
    let ghost kv = key_views(keys@);
    let n = keys.len();
    let mut i: usize = 0;
    proof {
        assert(kv.skip(0) =~= kv);
    }
    while i < n
        invariant
            i <= n,
            n == keys@.len(),
            kv == key_views(keys@),
            spec_s_pick(*v, kv) == spec_s_pick(*v, kv.skip(i as int)),
        decreases n - i,
    {
        proof {
            assert(kv.skip(i as int)[0] == keys@[i as int]@);
            assert(kv.skip(i as int).skip(1) =~= kv.skip(i as int + 1));
        }
        match v.get(keys[i]) {
            Some(x) => {
                match x {
                    JsonValue::Str(s) => {
                        if s.unicode_len() > 0 {
                            return Some(s.clone());
                        } else {
                            return None;
                        }
                    },
                    JsonValue::Num(m) => {
                        return Some(crate::digits::render_micros(*m));
                    },
                    _ => {
                        return None;
                    },
                }
            },
            None => {},
        }
        i += 1;
    }
    proof {
        assert(kv.skip(n as int) =~= Seq::<Seq<char>>::empty());
    }
    None
}

/// The whole seconds of a micro-unit number, when it is whole.
pub open spec fn spec_whole_seconds(m: i64) -> Option<i64> {
    if m % 1000000 == 0 {
        Some((m / 1000000) as i64)
    } else {
        None
    }
}

/// The timestamp denoted by one JSON value: a string through the
/// timezone-qualified form, then through the fixed UTC pattern; a whole
/// number as epoch seconds.
pub open spec fn spec_ts_of(x: JsonValue) -> Option<i64> {
    match x {
        JsonValue::Str(s) => match tz_parse_ms(s@) {
            Some(ms) => Some(ms),
            None => spec_parse_naive_ms(s@),
        },
        JsonValue::Num(m) => match spec_whole_seconds(m) {
            Some(n) => epoch_single_ms(n),
            None => None,
        },
        _ => None,
    }
}

/// Ordered-candidate timestamp extraction: the first candidate yielding
/// any successful parse wins; an absent or unparseable candidate moves
/// on to the next.
pub open spec fn spec_t_pick(v: JsonValue, keys: Seq<Seq<char>>) -> Option<i64>
    decreases keys.len(),
{
    if keys.len() == 0 {
        None
    } else {
        match lookup(v, keys[0]) {
            Some(x) => match spec_ts_of(x) {
                Some(t) => Some(t),
                None => spec_t_pick(v, keys.skip(1)),
            },
            None => spec_t_pick(v, keys.skip(1)),
        }
    }
}

/// The timestamp of one JSON value, as epoch milliseconds UTC.
fn ts_of(x: &JsonValue) -> (r: Option<i64>)
    ensures
        r == spec_ts_of(*x),
{
    match x {
        JsonValue::Str(s) => {
            match parse_tz_ms(s.as_str()) {
                Some(ms) => Some(ms),
                None => crate::dates::parse_naive_utc_ms(s.as_str()),
            }
        },
        JsonValue::Num(m) => {
            let mag: u64 = if *m < 0 {
                (-(*m + 1)) as u64 + 1
            } else {
                *m as u64
            };
            proof {
                assert(mag == if *m < 0 {
                    -(*m as int)
                } else {
                    *m as int
                });
            }
            if mag % 1000000 == 0 {
                let q: i64 = if *m < 0 {
                    -((mag / 1000000) as i64)
                } else {
                    (mag / 1000000) as i64
                };
                proof {
                    assert(*m as int % 1000000 == 0);
                    assert(q == *m as int / 1000000);
                }
                epoch_seconds_ms(q)
            } else {
                proof {
                    assert(*m as int % 1000000 != 0);
                }
                None
            }
        },
        _ => None,
    }
}

/// Scans candidate keys in priority order for a parseable timestamp.
pub fn t_pick(v: &JsonValue, keys: &[&str]) -> (r: Option<i64>)
    ensures
        r == spec_t_pick(*v, key_views(keys@)),
{
    let ghost kv = key_views(keys@);
    let n = keys.len();
    let mut i: usize = 0;
    proof {
        assert(kv.skip(0) =~= kv);
    }
    while i < n
        invariant
            i <= n,
            n == keys@.len(),
            kv == key_views(keys@),
            spec_t_pick(*v, kv) == spec_t_pick(*v, kv.skip(i as int)),
        decreases n - i,
    {
        proof {
            assert(kv.skip(i as int)[0] == keys@[i as int]@);
            assert(kv.skip(i as int).skip(1) =~= kv.skip(i as int + 1));
        }
        match v.get(keys[i]) {
            Some(x) => {
                match ts_of(x) {
                    Some(t) => {
                        return Some(t);
                    },
                    None => {},
                }
            },
            None => {},
        }
        i += 1;
    }
    proof {
        assert(kv.skip(n as int) =~= Seq::<Seq<char>>::empty());
    }
    None
}

/// A numeric-or-numeric-string value in fixed-point micro-units.
pub open spec fn spec_number_micros(x: JsonValue) -> Option<i64> {
    match x {
        JsonValue::Num(m) => Some(m),
        JsonValue::Str(s) => spec_parse_micros(s@),
        _ => None,
    }
}

/// Reads a number, accepting a decimal rendering in a string.
pub fn number_micros(x: &JsonValue) -> (r: Option<i64>)
    ensures
        r == spec_number_micros(*x),
{
    match x {
        JsonValue::Num(m) => Some(*m),
        JsonValue::Str(s) => crate::digits::parse_micros(s.as_str()),
        _ => None,
    }
}

/// The numeric field under one key, in micro-units.
pub open spec fn spec_field_micros(v: JsonValue, key: Seq<char>) -> Option<i64> {
    match lookup(v, key) {
        Some(x) => spec_number_micros(x),
        None => None,
    }
}

/// Reads one numeric field by key.
pub fn field_micros(v: &JsonValue, key: &str) -> (r: Option<i64>)
    ensures
        r == spec_field_micros(*v, key@),
{
    match v.get(key) {
        Some(x) => number_micros(x),
        None => None,
    }
}

} // verus!
