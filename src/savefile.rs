use crate::breakpoint::{Breakpoint, BreakpointView};
use crate::collection::BreakpointCollection;
use crate::files::{collect_marks, millis_of, timepoint_from_parts, OpenError};
use serde_json::Value;
use vstd::prelude::*;

verus! {

#[verifier::external_type_specification]
#[verifier::external_body]
pub struct ExValue(serde_json::Value);

/// A JSON value, as the save file reader sees it.
pub enum JsonValue {
    Null,
    Bool(bool),
    /// A number: `Some` where it is an unsigned integer that fits in `u64`.
    Number(Option<u64>),
    Str(String),
    Array(Vec<JsonValue>),
    /// The members of an object, each key once.
    Object(Vec<(String, JsonValue)>),
}

/// The JSON value that `text` holds, `None` where it is not JSON.
pub uninterp spec fn json_of(text: Seq<char>) -> Option<JsonValue>;

/// Relies on the variants of `serde_json::Value` and on `Number::as_u64`:
/// the same value, variant for variant.
#[verifier::external_body]
fn json_value(v: &Value) -> (r: JsonValue) {
    match v {
        Value::Null => JsonValue::Null,
        Value::Bool(b) => JsonValue::Bool(*b),
        Value::Number(n) => JsonValue::Number(n.as_u64()),
        Value::String(s) => JsonValue::Str(s.clone()),
        Value::Array(a) => JsonValue::Array(a.iter().map(json_value).collect()),
        Value::Object(m) => JsonValue::Object(
            m.iter().map(|(k, x)| (k.clone(), json_value(x))).collect(),
        ),
    }
}

/// Relies on `serde_json::from_str::<Value>`: the JSON value `text` holds,
/// which depends on the text alone.
#[verifier::external_body]
fn parse_json(text: &str) -> (r: Option<JsonValue>)
    ensures
        r == json_of(text@),
{
    serde_json::from_str::<Value>(text).ok().map(|v| json_value(&v))
}

/// The member `key` of an object's members.
pub open spec fn member(pairs: Seq<(String, JsonValue)>, key: Seq<char>) -> Option<JsonValue>
    decreases pairs.len(),
{
    if pairs.len() == 0 {
        None
    } else if pairs[0].0@ == key {
        Some(pairs[0].1)
    } else {
        member(pairs.drop_first(), key)
    }
}

pub open spec fn as_unsigned(v: Option<JsonValue>) -> Option<u64> {
    match v {
        Some(JsonValue::Number(Some(n))) => Some(n),
        _ => None,
    }
}

/// An offset as serde writes a `Duration`: an object of exactly the integer
/// members `secs` and `nanos`, or the array `[secs, nanos]`.
pub open spec fn duration_parts(v: JsonValue) -> Option<(u64, u64)> {
    match v {
        JsonValue::Object(pairs) => if forall|i: int|
            0 <= i < pairs@.len() ==> #[trigger] pairs@[i].0@ == "secs"@ || pairs@[i].0@
                == "nanos"@ {
            match (as_unsigned(member(pairs@, "secs"@)), as_unsigned(member(pairs@, "nanos"@))) {
                (Some(s), Some(n)) => Some((s, n)),
                _ => None,
            }
        } else {
            None
        },
        JsonValue::Array(items) => if items@.len() == 2 {
            match (as_unsigned(Some(items@[0])), as_unsigned(Some(items@[1]))) {
                (Some(s), Some(n)) => Some((s, n)),
                _ => None,
            }
        } else {
            None
        },
        _ => None,
    }
}

/// A marker from a hint and an offset: the hint must be a string, and the
/// offset must have nanoseconds within `u32` and fit in milliseconds.
pub open spec fn record_view(hint: Option<JsonValue>, time: Option<JsonValue>) -> Option<
    BreakpointView,
> {
    match (hint, time) {
        (Some(JsonValue::Str(h)), Some(t)) => match duration_parts(t) {
            Some((s, n)) => if n <= u32::MAX && millis_of(s, n as u32) <= u64::MAX {
                Some(BreakpointView { timepoint: millis_of(s, n as u32) as u64, hint: h@ })
            } else {
                None
            },
            None => None,
        },
        _ => None,
    }
}

/// One saved marker: an object with members `hint` and `timepoint` (others
/// are ignored), or the array `[hint, timepoint]`.
pub open spec fn saved_record(v: JsonValue) -> Option<BreakpointView> {
    match v {
        JsonValue::Object(pairs) => record_view(member(pairs@, "hint"@), member(pairs@, "timepoint"@)),
        JsonValue::Array(items) => if items@.len() == 2 {
            record_view(Some(items@[0]), Some(items@[1]))
        } else {
            None
        },
        _ => None,
    }
}

/// The markers of a list of saved records, `None` where one is bad.
pub open spec fn saved_records(items: Seq<JsonValue>) -> Option<Seq<BreakpointView>>
    decreases items.len(),
{
    if items.len() == 0 {
        Some(Seq::empty())
    } else {
        match (saved_records(items.drop_last()), saved_record(items.last())) {
            (Some(a), Some(b)) => Some(a.push(b)),
            _ => None,
        }
    }
}

/// The markers of a saved set: an object whose `breakpoints` member is an
/// array of saved records.
pub open spec fn saved_set(j: JsonValue) -> Option<Seq<BreakpointView>> {
    match j {
        JsonValue::Object(pairs) => match member(pairs@, "breakpoints"@) {
            Some(JsonValue::Array(items)) => saved_records(items@),
            _ => None,
        },
        _ => None,
    }
}

/// A list with good records has a good prefix.
proof fn lemma_records_prefix(items: Seq<JsonValue>, i: int)
    requires
        0 <= i <= items.len(),
        saved_records(items) is Some,
    ensures
        saved_records(items.subrange(0, i)) is Some,
    decreases items.len(),
{
    if i < items.len() {
        assert(items.drop_last() =~= items.subrange(0, items.len() - 1));
        assert(items.drop_last().subrange(0, i) =~= items.subrange(0, i));
        lemma_records_prefix(items.drop_last(), i);
    } else {
        assert(items.subrange(0, i) =~= items);
    }
}

/// The member `key` of an object's members.
fn lookup<'a>(pairs: &'a Vec<(String, JsonValue)>, key: &str) -> (r: Option<&'a JsonValue>)
    ensures
        match r {
            Some(v) => member(pairs@, key@) == Some(*v),
            None => member(pairs@, key@) is None,
        },
{
    let wanted = key.to_owned();
    let mut i: usize = 0;
    assert(pairs@.subrange(0, pairs@.len() as int) =~= pairs@);
    while i < pairs.len()
        invariant
            i <= pairs@.len(),
            wanted@ == key@,
            member(pairs@, key@) == member(pairs@.subrange(i as int, pairs@.len() as int), key@),
        decreases pairs.len() - i,
    {
        let ghost rest = pairs@.subrange(i as int, pairs@.len() as int);
        assert(rest[0] == pairs@[i as int]);
        if pairs[i].0 == wanted {
            return Some(&pairs[i].1);
        }
        assert(rest.drop_first() =~= pairs@.subrange(i + 1, pairs@.len() as int));
        i = i + 1;
    }
    None
}

fn unsigned(v: Option<&JsonValue>) -> (r: Option<u64>)
    ensures
        r == as_unsigned(
            match v {
                Some(x) => Some(*x),
                None => None,
            },
        ),
{
    match v {
        Some(JsonValue::Number(Some(n))) => Some(*n),
        _ => None,
    }
}

fn read_duration(v: &JsonValue) -> (r: Option<(u64, u64)>)
    ensures
        r == duration_parts(*v),
{
    match v {
        JsonValue::Object(pairs) => {
            let secs_key = "secs".to_owned();
            let nanos_key = "nanos".to_owned();
            let mut i: usize = 0;
            while i < pairs.len()
                invariant
                    i <= pairs@.len(),
                    *v == JsonValue::Object(*pairs),
                    secs_key@ == "secs"@,
                    nanos_key@ == "nanos"@,
                    forall|j: int|
                        0 <= j < i ==> #[trigger] pairs@[j].0@ == "secs"@ || pairs@[j].0@
                            == "nanos"@,
                decreases pairs.len() - i,
            {
                if !(pairs[i].0 == secs_key || pairs[i].0 == nanos_key) {
                    assert(!(pairs@[i as int].0@ == "secs"@ || pairs@[i as int].0@ == "nanos"@));
                    assert(!(forall|j: int|
                        0 <= j < pairs@.len() ==> #[trigger] pairs@[j].0@ == "secs"@ || pairs@[j].0@
                            == "nanos"@));
                    assert(duration_parts(*v) is None);
                    return None;
                }
                i = i + 1;
            }
            match (unsigned(lookup(pairs, "secs")), unsigned(lookup(pairs, "nanos"))) {
                (Some(s), Some(n)) => Some((s, n)),
                _ => None,
            }
        },
        JsonValue::Array(items) => {
            if items.len() != 2 {
                return None;
            }
            match (unsigned(Some(&items[0])), unsigned(Some(&items[1]))) {
                (Some(s), Some(n)) => Some((s, n)),
                _ => None,
            }
        },
        _ => None,
    }
}

/// A marker from a saved hint and offset (see [`record_view`]).
fn read_fields(hint: Option<&JsonValue>, time: Option<&JsonValue>) -> (r: Option<Breakpoint>)
    ensures
        match r {
            Some(b) => record_view(
                match hint {
                    Some(x) => Some(*x),
                    None => None,
                },
                match time {
                    Some(x) => Some(*x),
                    None => None,
                },
            ) == Some(b@),
            None => record_view(
                match hint {
                    Some(x) => Some(*x),
                    None => None,
                },
                match time {
                    Some(x) => Some(*x),
                    None => None,
                },
            ) is None,
        },
{
    match (hint, time) {
        (Some(JsonValue::Str(h)), Some(t)) => match read_duration(t) {
            Some((s, n)) => {
                if n > u32::MAX as u64 {
                    return None;
                }
                match timepoint_from_parts(s, n as u32) {
                    Some(ms) => Some(Breakpoint::new(ms, h.clone())),
                    None => None,
                }
            },
            None => None,
        },
        _ => None,
    }
}

/// Reads one saved record (see [`saved_record`]).
fn read_record(v: &JsonValue) -> (r: Option<Breakpoint>)
    ensures
        match r {
            Some(b) => saved_record(*v) == Some(b@),
            None => saved_record(*v) is None,
        },
{
    match v {
        JsonValue::Object(pairs) => read_fields(lookup(pairs, "hint"), lookup(pairs, "timepoint")),
        JsonValue::Array(items) => {
            if items.len() != 2 {
                return None;
            }
            read_fields(Some(&items[0]), Some(&items[1]))
        },
        _ => None,
    }
}

/// Reads the marker list of a saved set (see [`saved_set`]): the markers of
/// its records, in their order; text that is not JSON or does not hold a
/// saved set makes the file corrupt.
pub fn parse_config(text: &str) -> (r: Result<BreakpointCollection, OpenError>)
    ensures
        match json_of(text@) {
            Some(j) => match saved_set(j) {
                Some(marks) => r is Ok && r->Ok_0.wf() && r->Ok_0@.to_multiset()
                    == marks.to_multiset(),
                None => r == Err::<BreakpointCollection, OpenError>(OpenError::CorruptSaveFile),
            },
            None => r == Err::<BreakpointCollection, OpenError>(OpenError::CorruptSaveFile),
        },
{
    let value = match parse_json(text) {
        Some(v) => v,
        None => return Err(OpenError::CorruptSaveFile),
    };
    let pairs = match &value {
        JsonValue::Object(pairs) => pairs,
        _ => return Err(OpenError::CorruptSaveFile),
    };
    let items = match lookup(pairs, "breakpoints") {
        Some(JsonValue::Array(items)) => items,
        _ => return Err(OpenError::CorruptSaveFile),
    };
    let mut marks: Vec<Breakpoint> = Vec::new();
    let mut i: usize = 0;
    assert(saved_set(value) == saved_records(items@));
    assert(items@.subrange(0, 0) =~= Seq::<JsonValue>::empty());
    assert(marks@.map_values(|b: Breakpoint| b@) =~= Seq::<BreakpointView>::empty());
    while i < items.len()
        invariant
            i <= items@.len(),
            json_of(text@) == Some(value),
            saved_set(value) == saved_records(items@),
            saved_records(items@.subrange(0, i as int)) == Some(
                marks@.map_values(|b: Breakpoint| b@),
            ),
        decreases items.len() - i,
    {
        let ghost prefix = items@.subrange(0, i as int);
        let ghost next = items@.subrange(0, i + 1);
        assert(next.drop_last() =~= prefix);
        assert(next.last() == items@[i as int]);
        match read_record(&items[i]) {
            Some(b) => {
                let ghost before = marks@;
                marks.push(b);
                assert(marks@.map_values(|b: Breakpoint| b@) =~= before.map_values(
                    |b: Breakpoint| b@,
                ).push(b@));
            },
            None => {
                proof {
                    assert(saved_record(items@[i as int]) is None);
                    assert(saved_records(next) is None);
                    if saved_records(items@) is Some {
                        lemma_records_prefix(items@, i + 1);
                    }
                }
                return Err(OpenError::CorruptSaveFile);
            },
        }
        i = i + 1;
    }
    assert(items@.subrange(0, i as int) =~= items@);
    let c = collect_marks(marks);
    Ok(c)
}

} // verus!
