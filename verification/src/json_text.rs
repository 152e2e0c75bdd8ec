//! JSON text, read with `serde_json`.

use crate::json::{
    entries_view, finite_bits, items_view, json_view, lemma_items_view, reversed, Fields, Json, JsonV,
    Number,
};
use vstd::prelude::*;

verus! {

/// `serde_json::Value`.
#[verifier::external_type_specification]
#[verifier::external_body]
pub struct ExValue(serde_json::Value);

/// `serde_json::Error`.
#[verifier::external_type_specification]
#[verifier::external_body]
pub struct ExError(serde_json::Error);

/// What `serde_json::from_str` reads a text as; nothing where it reports an error.
pub uninterp spec fn parsed_json(text: Seq<char>) -> Option<JsonV>;

/// What `serde_json::from_slice` reads bytes as, or the text of the error that it reports.
pub uninterp spec fn parsed_json_bytes(bytes: Seq<u8>) -> Result<JsonV, Seq<char>>;

/// What a `serde_json::Value` holds.
pub uninterp spec fn value_json(value: serde_json::Value) -> JsonV;

/// The binary64 bits that `serde_json::Number::as_f64` gives for an integer.
pub uninterp spec fn integer_as_float(n: int) -> u64;

/// One level of a value: a scalar, or the items or members it holds. A number is given three
/// ways, each where the number can be had so.
pub enum ValueNode {
    Null,
    Bool(bool),
    Num(Option<u64>, Option<i64>, Option<u64>),
    Str(String),
    Arr(Vec<serde_json::Value>),
    Obj(Vec<(String, serde_json::Value)>),
}

pub open spec fn value_items(items: Seq<serde_json::Value>) -> Seq<JsonV> {
    items.map_values(|v: serde_json::Value| value_json(v))
}

pub open spec fn value_members(members: Seq<(String, serde_json::Value)>) -> Map<Seq<char>, JsonV>
    decreases members.len(),
{
    if members.len() == 0 {
        Map::empty()
    } else {
        value_members(members.drop_last()).insert(members.last().0@, value_json(members.last().1))
    }
}

/// The number that three readings stand for: an integer where there is one, else the float.
pub open spec fn number_of(unsigned: Option<u64>, signed: Option<i64>, float: Option<u64>) -> JsonV {
    match (unsigned, signed, float) {
        (Some(n), _, _) => JsonV::Num(Number::PosInt(n)),
        (None, Some(n), _) => JsonV::Num(Number::NegInt(n)),
        (None, None, Some(bits)) => JsonV::Num(Number::Float(bits)),
        (None, None, None) => JsonV::Null,
    }
}

pub open spec fn node_json(node: ValueNode) -> JsonV {
    match node {
        ValueNode::Null => JsonV::Null,
        ValueNode::Bool(b) => JsonV::Bool(b),
        ValueNode::Num(u, i, f) => number_of(u, i, f),
        ValueNode::Str(s) => JsonV::Str(s@),
        ValueNode::Arr(items) => JsonV::Arr(value_items(items@)),
        ValueNode::Obj(members) => JsonV::Obj(value_members(members@)),
    }
}

/// Calls `serde_json::from_str`. Of its result the name `parsed_json` says that it depends on the
/// text alone, and that an error comes exactly where there is no value.
#[verifier::external_body]
fn parse_text(text: &str) -> (value: Result<serde_json::Value, serde_json::Error>)
    ensures
        match value {
            Ok(v) => parsed_json(text@) == Some(value_json(v)),
            Err(_) => parsed_json(text@) is None,
        },
{
    serde_json::from_str(text)
}

/// Calls `serde_json::from_slice`, and writes its error out. The name `parsed_json_bytes` says
/// that the value, or the error's text, depends on the bytes alone.
#[verifier::external_body]
fn parse_bytes(bytes: &[u8]) -> (value: Result<serde_json::Value, String>)
    ensures
        match value {
            Ok(v) => parsed_json_bytes(bytes@) == Ok::<JsonV, Seq<char>>(value_json(v)),
            Err(e) => parsed_json_bytes(bytes@) == Err::<JsonV, Seq<char>>(e@),
        },
{
    serde_json::from_slice(bytes).map_err(|e: serde_json::Error| e.to_string())
}

/// Takes a `serde_json::Value` apart, one level. The variants are those of the enum; a number is
/// read with `Number::as_u64`, `as_i64` and `as_f64`; an object's names are unique because
/// `serde_json::Map` is a map.
#[verifier::external_body]
fn open_value(value: serde_json::Value) -> (node: ValueNode)
    ensures
        node_json(node) == value_json(value),
        node matches ValueNode::Obj(members) ==> forall|i: int, j: int|
            0 <= i < j < members@.len() ==> (#[trigger] members@[i]).0@ != (
            #[trigger] members@[j]).0@,
{
    match value {
        serde_json::Value::Null => ValueNode::Null,
        serde_json::Value::Bool(b) => ValueNode::Bool(b),
        serde_json::Value::Number(n) => ValueNode::Num(
            n.as_u64(),
            n.as_i64(),
            n.as_f64().map(|x| x.to_bits()),
        ),
        serde_json::Value::String(s) => ValueNode::Str(s),
        serde_json::Value::Array(items) => ValueNode::Arr(items),
        serde_json::Value::Object(members) => ValueNode::Obj(members.into_iter().collect()),
    }
}

/// Makes a `serde_json::Number` of an integer with `from_i128`, which takes every integer that is a
/// `u64` or an `i64`, and calls its `as_f64`. The integer is cast, so there is always a float and
/// it is finite; the name `integer_as_float` stands for its bits.
#[verifier::external_body]
fn integer_float_bits(n: i128) -> (bits: Option<u64>)
    requires
        i64::MIN <= n <= u64::MAX,
    ensures
        bits == Some(integer_as_float(n as int)),
        match bits {
            Some(b) => finite_bits(b),
            None => false,
        },
{
    serde_json::Number::from_i128(n).and_then(|k| k.as_f64()).map(|x| x.to_bits())
}

proof fn lemma_value_members(members: Seq<(String, serde_json::Value)>, i: int)
    requires
        0 <= i < members.len(),
        forall|a: int, b: int|
            0 <= a < b < members.len() ==> (#[trigger] members[a]).0@ != (#[trigger] members[b]).0@,
    ensures
        value_members(members).dom().finite(),
        value_members(members).contains_key(members[i].0@),
        value_members(members)[members[i].0@] == value_json(members[i].1),
    decreases members.len(),
{
    let before = members.drop_last();
    if i < members.len() - 1 {
        assert forall|a: int, b: int| 0 <= a < b < before.len() implies (#[trigger] before[a]).0@
            != (#[trigger] before[b]).0@ by {
            assert(before[a] == members[a] && before[b] == members[b]);
        }
        lemma_value_members(before, i);
        assert(members[i].0@ != members[members.len() - 1].0@);
    } else {
        lemma_value_members_finite(before);
    }
}

proof fn lemma_value_members_finite(members: Seq<(String, serde_json::Value)>)
    ensures
        value_members(members).dom().finite(),
    decreases members.len(),
{
    if members.len() > 0 {
        lemma_value_members_finite(members.drop_last());
    }
}

/// Reads a whole value.
fn read_value(value: serde_json::Value) -> (json: Json)
    ensures
        json@ == value_json(value),
    decreases value_json(value),
{
    match open_value(value) {
        ValueNode::Null => Json::Null,
        ValueNode::Bool(b) => Json::Bool(b),
        ValueNode::Num(u, i, f) => match (u, i, f) {
            (Some(n), _, _) => Json::Num(Number::PosInt(n)),
            (None, Some(n), _) => Json::Num(Number::NegInt(n)),
            (None, None, Some(bits)) => Json::Num(Number::Float(bits)),
            (None, None, None) => Json::Null,
        },
        ValueNode::Str(s) => Json::Str(s),
        ValueNode::Arr(items) => {
            let ghost all = items@;
            let mut rest = reversed(items);
            let mut out: Vec<Json> = Vec::new();
            while rest.len() > 0
                invariant
                    value_json(value) == JsonV::Arr(value_items(all)),
                    out@.len() + rest@.len() == all.len(),
                    forall|j: int|
                        0 <= j < rest@.len() ==> #[trigger] rest@[j] == all[all.len() - 1 - j],
                    forall|j: int|
                        0 <= j < out@.len() ==> json_view(#[trigger] out@[j]) == value_json(all[j]),
                decreases rest.len(),
            {
                if let Some(item) = rest.pop() {
                    proof {
                        let n = out@.len() as int;
                        assert(decreases_to!(value_json(value) => value_json(value)->Arr_0));
                        assert(decreases_to!(value_items(all) => value_items(all)[n]));
                        assert(value_items(all)[n] == value_json(item));
                    }
                    out.push(read_value(item));
                }
            }
            proof {
                lemma_items_view(out@);
                assert(items_view(out@) =~= value_items(all));
            }
            Json::Arr(out)
        },
        ValueNode::Obj(members) => {
            let ghost all = members@;
            let mut rest = reversed(members);
            let mut out: Vec<(String, Json)> = Vec::new();
            assert(all.take(0) =~= Seq::empty());
            while rest.len() > 0
                invariant
                    value_json(value) == JsonV::Obj(value_members(all)),
                    forall|i: int, j: int|
                        0 <= i < j < all.len() ==> (#[trigger] all[i]).0@ != (#[trigger] all[j]).0@,
                    out@.len() + rest@.len() == all.len(),
                    forall|j: int|
                        0 <= j < rest@.len() ==> #[trigger] rest@[j] == all[all.len() - 1 - j],
                    entries_view(out@) == value_members(all.take(out@.len() as int)),
                decreases rest.len(),
            {
                let ghost n = out@.len() as int;
                let ghost before = out@;
                if let Some((name, item)) = rest.pop() {
                    proof {
                        lemma_value_members(all, n);
                        assert(decreases_to!(value_json(value) => value_json(value)->Obj_0));
                        assert(decreases_to!(value_members(all) => value_members(all)[all[n].0@]));
                    }
                    out.push((name, read_value(item)));
                    proof {
                        assert(out@.drop_last() =~= before);
                        assert(all.take(n + 1).drop_last() =~= all.take(n));
                    }
                }
            }
            assert(all.take(all.len() as int) =~= all);
            Json::Obj(Fields { entries: out })
        },
    }
}

/// Reads a JSON text; nothing where the text is not JSON.
pub fn read_json(text: &str) -> (json: Option<Json>)
    ensures
        match json {
            Some(j) => parsed_json(text@) == Some(j@),
            None => parsed_json(text@) is None,
        },
{
    match parse_text(text) {
        Ok(value) => Some(read_value(value)),
        Err(_) => None,
    }
}

/// Reads JSON bytes, or says why they are not JSON.
pub fn read_json_bytes(bytes: &[u8]) -> (json: Result<Json, String>)
    ensures
        match json {
            Ok(j) => parsed_json_bytes(bytes@) == Ok::<JsonV, Seq<char>>(j@),
            Err(e) => parsed_json_bytes(bytes@) == Err::<JsonV, Seq<char>>(e@),
        },
{
    match parse_bytes(bytes) {
        Ok(value) => Ok(read_value(value)),
        Err(e) => Err(e),
    }
}

/// The binary64 bits of a number, an integer converted; nothing where the value is no number.
pub open spec fn json_float(value: JsonV) -> Option<u64> {
    match value {
        JsonV::Num(Number::PosInt(n)) => Some(integer_as_float(n as int)),
        JsonV::Num(Number::NegInt(n)) => Some(integer_as_float(n as int)),
        JsonV::Num(Number::Float(bits)) => Some(bits),
        _ => None,
    }
}

/// The binary64 bits of a number.
pub fn float_bits(value: &Json) -> (bits: Option<u64>)
    ensures
        bits == json_float(value@),
        value@ matches JsonV::Num(Number::PosInt(n)) ==> finite_bits(
            integer_as_float(n as int),
        ),
        value@ matches JsonV::Num(Number::NegInt(n)) ==> finite_bits(
            integer_as_float(n as int),
        ),
{
    match value {
        Json::Num(Number::PosInt(n)) => integer_float_bits(*n as i128),
        Json::Num(Number::NegInt(n)) => integer_float_bits(*n as i128),
        Json::Num(Number::Float(bits)) => Some(*bits),
        _ => None,
    }
}

} // verus!
