//! The boundary with `serde_json`, which reads JSON text.
//!
//! `serde_json` has its own tree type. The library takes it apart one node
//! at a time, through the small trusted functions of this module, and
//! proves the conversion of whole trees from them.

use crate::human::{
    distinct_keys, lemma_array_view, lemma_object_view, member_models, models, Human, HumanNumber, HumanValue,
    Number,
};
use crate::ieee::double_is_finite;
use serde_json::Value;
use vstd::prelude::*;

verus! {

/// `serde_json::Value`, the tree type of `serde_json`. The library looks
/// into it only through the functions below.
#[verifier::external_type_specification]
#[verifier::external_body]
pub struct ExValue(serde_json::Value);

/// `serde_json::Error`, which `serde_json::from_str` reports. The library
/// only turns it into its text.
#[verifier::external_type_specification]
#[verifier::external_body]
pub struct ExError(serde_json::Error);

/// The human value that a `serde_json::Value` holds, the members of an
/// object in the order in which the value lists them.
pub uninterp spec fn human_of(value: Value) -> Human;

/// The value that `serde_json::from_str` reads from a text, or `None` where
/// it reports an error.
pub uninterp spec fn parsing(text: Seq<char>) -> Option<Human>;

/// The human values that a run of `serde_json` values holds.
pub open spec fn humans_of(values: Seq<Value>) -> Seq<Human> {
    Seq::new(values.len(), |i: int| human_of(values[i]))
}

/// The members that a run of `serde_json` members holds.
pub open spec fn members_of(members: Seq<(String, Value)>) -> Seq<(Seq<char>, Human)> {
    Seq::new(members.len(), |i: int| (members[i].0@, human_of(members[i].1)))
}

/// One node of a `serde_json::Value`, taken apart: plain values, and the
/// children still in `serde_json`'s type.
pub enum Unpacked {
    Null,
    Boolean(bool),
    /// The number as `u64` and as `i64`, each where it is such an integer,
    /// and as the bits of a double.
    Number(Option<u64>, Option<i64>, u64),
    Text(String),
    Array(Vec<Value>),
    Object(Vec<(String, Value)>),
}

impl Unpacked {
    /// The human value that the node stands for.
    pub open spec fn human(&self) -> Human {
        match self {
            Unpacked::Null => Human::Null,
            Unpacked::Boolean(b) => Human::Boolean(*b),
            Unpacked::Number(Some(n), _, _) => Human::Number(Number::Integer(*n as int)),
            Unpacked::Number(None, Some(n), _) => Human::Number(Number::Integer(*n as int)),
            Unpacked::Number(None, None, bits) => Human::Number(Number::Float(*bits)),
            Unpacked::Text(text) => Human::Text(text@),
            Unpacked::Array(items) => Human::Array(humans_of(items@)),
            Unpacked::Object(members) => Human::Object(members_of(members@)),
        }
    }
}

/// Takes a `serde_json::Value` apart, one arm for each of its variants. A
/// number gives what `Number::as_u64` and `Number::as_i64` return and the
/// bits of what `Number::as_f64` returns; an object gives the pairs that
/// its `Map` iterates over.
///
/// Trusted: that the parts are those of the value; that a number which is
/// neither kind of integer is a finite double, as `serde_json` says of its
/// numbers; and that a `Map` holds no key twice.
#[verifier::external_body]
fn unpack(value: Value) -> (node: Unpacked)
    ensures
        node.human() == human_of(value),
        node matches Unpacked::Number(None, None, bits) ==> double_is_finite(bits),
        node matches Unpacked::Object(members) ==> distinct_keys(members_of(members@)),
{
    match value {
        Value::Null => Unpacked::Null,
        Value::Bool(b) => Unpacked::Boolean(b),
        Value::Number(n) => Unpacked::Number(n.as_u64(), n.as_i64(), n.as_f64().unwrap_or_default().to_bits()),
        Value::String(s) => Unpacked::Text(s),
        Value::Array(a) => Unpacked::Array(a),
        Value::Object(m) => Unpacked::Object(m.into_iter().collect()),
    }
}

/// `serde_json::from_str` into a `serde_json::Value`.
///
/// Trusted: that the outcome depends on the text alone.
#[verifier::external_body]
fn from_str(text: &str) -> (read: Result<Value, serde_json::Error>)
    ensures
        match read {
            Ok(value) => parsing(text@) == Some(human_of(value)),
            Err(_) => parsing(text@) is None,
        },
{
    serde_json::from_str(text)
}

/// The text of a reading error (its `Display`). Nothing is claimed of it.
#[verifier::external_body]
fn error_text(error: &serde_json::Error) -> (text: String) {
    error.to_string()
}

/// Converts a value from `serde_json`'s type.
#[verifier::loop_isolation(false)]
pub fn from_serde(outside: Value) -> (value: HumanValue)
    ensures
        value@ == human_of(outside),
        value@.well_formed(),
    decreases human_of(outside),
{
    let node = unpack(outside);
    match node {
        Unpacked::Null => HumanValue::Null,
        Unpacked::Boolean(b) => HumanValue::Boolean(b),
        Unpacked::Number(Some(n), _, _) => HumanValue::Number(HumanNumber::PosInt(n)),
        Unpacked::Number(None, Some(n), _) => HumanValue::Number(HumanNumber::from_i64(n)),
        Unpacked::Number(None, None, bits) => HumanValue::Number(HumanNumber::Float(bits)),
        Unpacked::Text(text) => HumanValue::Text(text),
        Unpacked::Array(items) => {
            let ghost source = items@;
            let mut items = items;
            // taken from the back, so the converted items come out last first
            let mut backwards: Vec<HumanValue> = Vec::new();
            while items.len() > 0
                invariant
                    items@.len() + backwards@.len() == source.len(),
                    items@ == source.take(items@.len() as int),
                    forall|j: int|
                        0 <= j < backwards@.len() ==> (#[trigger] backwards@[j])@ == human_of(
                            source[source.len() - 1 - j],
                        ) && backwards@[j]@.well_formed(),
                decreases items.len(),
            {
                let ghost k = items@.len() - 1;
                let item = items.pop().unwrap();
                assert(item == source[k]);
                assert(humans_of(source)[k] == human_of(item));
                assert(human_of(outside) == Human::Array(humans_of(source)));
                assert(decreases_to!(human_of(outside)->Array_0 => human_of(outside)->Array_0[k]));
                assert(decreases_to!(human_of(outside) => human_of(outside)->Array_0[k]));
                let converted = from_serde(item);
                backwards.push(converted);
            }
            let mut converted: Vec<HumanValue> = Vec::new();
            while backwards.len() > 0
                invariant
                    converted@.len() + backwards@.len() == source.len(),
                    forall|j: int|
                        0 <= j < backwards@.len() ==> (#[trigger] backwards@[j])@ == human_of(
                            source[source.len() - 1 - j],
                        ) && backwards@[j]@.well_formed(),
                    forall|j: int|
                        0 <= j < converted@.len() ==> (#[trigger] converted@[j])@ == human_of(source[j])
                            && converted@[j]@.well_formed(),
                decreases backwards.len(),
            {
                let item = backwards.pop().unwrap();
                converted.push(item);
            }
            proof {
                lemma_array_view(converted);
                assert(models(converted@) =~= humans_of(source));
            }
            HumanValue::Array(converted)
        },
        Unpacked::Object(members) => {
            let ghost source = members@;
            let mut members = members;
            let mut backwards: Vec<(String, HumanValue)> = Vec::new();
            while members.len() > 0
                invariant
                    members@.len() + backwards@.len() == source.len(),
                    members@ == source.take(members@.len() as int),
                    forall|j: int|
                        0 <= j < backwards@.len() ==> (#[trigger] backwards@[j]).0@ == source[source.len() - 1
                            - j].0@ && backwards@[j].1@ == human_of(source[source.len() - 1 - j].1)
                            && backwards@[j].1@.well_formed(),
                decreases members.len(),
            {
                let ghost k = members@.len() - 1;
                let member = members.pop().unwrap();
                assert(member == source[k]);
                assert(members_of(source)[k] == (member.0@, human_of(member.1)));
                assert(human_of(outside) == Human::Object(members_of(source)));
                assert(decreases_to!(human_of(outside)->Object_0 => human_of(outside)->Object_0[k]));
                assert(decreases_to!(human_of(outside) => human_of(outside)->Object_0[k].1));
                let item = from_serde(member.1);
                backwards.push((member.0, item));
            }
            let mut converted: Vec<(String, HumanValue)> = Vec::new();
            while backwards.len() > 0
                invariant
                    converted@.len() + backwards@.len() == source.len(),
                    forall|j: int|
                        0 <= j < backwards@.len() ==> (#[trigger] backwards@[j]).0@ == source[source.len() - 1
                            - j].0@ && backwards@[j].1@ == human_of(source[source.len() - 1 - j].1)
                            && backwards@[j].1@.well_formed(),
                    forall|j: int|
                        0 <= j < converted@.len() ==> (#[trigger] converted@[j]).0@ == source[j].0@
                            && converted@[j].1@ == human_of(source[j].1) && converted@[j].1@.well_formed(),
                decreases backwards.len(),
            {
                let member = backwards.pop().unwrap();
                converted.push(member);
            }
            proof {
                lemma_object_view(converted);
                assert(member_models(converted@) =~= members_of(source));
            }
            HumanValue::Object(converted)
        },
    }
}

/// Reads a JSON text. What `serde_json` reports as an error comes back as
/// the error's text.
pub fn parse_json(text: &str) -> (parsed: Result<HumanValue, String>)
    ensures
        match parsed {
            Ok(value) => parsing(text@) == Some(value@) && value@.well_formed(),
            Err(_) => parsing(text@) is None,
        },
{
    match from_str(text) {
        Ok(outside) => Ok(from_serde(outside)),
        Err(error) => Err(error_text(&error)),
    }
}

} // verus!
