//! A structured model of upstream JSON payloads.
//!
//! Upstream sources return dynamically shaped JSON; the core only ever
//! probes objects by key, walks arrays, and reads strings and numbers.
//! Numbers are held in fixed-point micro-units (one millionth), which is
//! exact for the coordinate, velocity and epoch values the core reads.

use vstd::prelude::*;

verus! {

/// A JSON-like structured value.
///
/// `Num(m)` denotes the number `m / 1_000_000`: values are held in
/// fixed-point micro-units.
#[derive(Debug)]
pub enum JsonValue {
    Null,
    Bool(bool),
    Num(i64),
    Str(String),
    Arr(Vec<JsonValue>),
    Obj(Vec<(String, JsonValue)>),
}

/// First binding of `key` in an object's field list, if any.
pub open spec fn lookup_fields(fields: Seq<(String, JsonValue)>, key: Seq<char>) -> Option<
    JsonValue,
>
    decreases fields.len(),
{
    if fields.len() == 0 {
        None
    } else if fields[0].0@ == key {
        Some(fields[0].1)
    } else {
        lookup_fields(fields.skip(1), key)
    }
}

/// Value bound to `key`, when `v` is an object that binds it.
pub open spec fn lookup(v: JsonValue, key: Seq<char>) -> Option<JsonValue> {
    match v {
        JsonValue::Obj(fields) => lookup_fields(fields@, key),
        _ => None,
    }
}

/// Whether two strings hold the same characters.
pub fn str_eq(a: &str, b: &str) -> (r: bool)
    ensures
        r == (a@ == b@),
{
    let la = a.unicode_len();
    let lb = b.unicode_len();
    if la != lb {
        return false;
    }
    let mut i: usize = 0;
    while i < la
        invariant
            i <= la,
            la == a@.len(),
            lb == b@.len(),
            la == lb,
            forall|j: int| 0 <= j < i ==> a@[j] == b@[j],
        decreases la - i,
    {
        if a.get_char(i) != b.get_char(i) {
            return false;
        }
        i += 1;
    }
    proof {
        assert(a@ =~= b@);
    }
    true
}

/// Position of the first binding of `key` in a field list, when its
/// value is an array.
pub fn find_array_binding(fields: &Vec<(String, JsonValue)>, key: &str) -> (r: Option<usize>)
    ensures
        match r {
            Some(i) => i < fields@.len() && lookup_fields(fields@, key@) == Some(
                fields@[i as int].1,
            ) && fields@[i as int].1 matches JsonValue::Arr(_),
            None => !(lookup_fields(fields@, key@) matches Some(x) && x matches JsonValue::Arr(_)),
        },
{
    let n = fields.len();
    let mut i: usize = 0;
    proof {
        assert(fields@.skip(0) =~= fields@);
    }
    while i < n
        invariant
            i <= n,
            n == fields@.len(),
            lookup_fields(fields@, key@) == lookup_fields(fields@.skip(i as int), key@),
        decreases n - i,
    {
        proof {
            assert(fields@.skip(i as int)[0] == fields@[i as int]);
            assert(fields@.skip(i as int).skip(1) =~= fields@.skip(i as int + 1));
        }
        if str_eq(fields[i].0.as_str(), key) {
            proof {
                assert(lookup_fields(fields@.skip(i as int), key@) == Some(fields@[i as int].1));
            }
            match &fields[i].1 {
                JsonValue::Arr(_) => {
                    return Some(i);
                },
                _ => {
                    return None;
                },
            }
        }
        i += 1;
    }
    proof {
        assert(fields@.skip(n as int) =~= Seq::<(String, JsonValue)>::empty());
    }
    None
}

impl JsonValue {
    /// The value bound to `key`, when `self` is an object binding it.
    pub fn get<'a>(&'a self, key: &str) -> (r: Option<&'a JsonValue>)
        ensures
            match r {
                Some(x) => lookup(*self, key@) == Some(*x),
                None => lookup(*self, key@) is None,
            },
    {
        match self {
            JsonValue::Obj(fields) => {
                let n = fields.len();
                let mut i: usize = 0;
                proof {
                    assert(fields@.skip(0) =~= fields@);
                    assert(lookup(*self, key@) == lookup_fields(fields@, key@));
                }
                while i < n
                    invariant
                        i <= n,
                        n == fields@.len(),
                        lookup(*self, key@) == lookup_fields(fields@, key@),
                        lookup_fields(fields@, key@) == lookup_fields(fields@.skip(i as int), key@),
                    decreases n - i,
                {
                    proof {
                        assert(fields@.skip(i as int)[0] == fields@[i as int]);
                        assert(fields@.skip(i as int).skip(1) =~= fields@.skip(i as int + 1));
                    }
                    if str_eq(fields[i].0.as_str(), key) {
                        let p: &JsonValue = &fields[i].1;
                        proof {
                            assert(lookup_fields(fields@.skip(i as int), key@) == Some(
                                fields@[i as int].1,
                            ));
                            assert(*p == fields@[i as int].1);
                            assert(lookup(*self, key@) == Some(*p));
                        }
                        return Some(p);
                    }
                    i += 1;
                }
                proof {
                    assert(fields@.skip(n as int) =~= Seq::<(String, JsonValue)>::empty());
                }
                None
            },
            _ => None,
        }
    }

}

} // verus!
