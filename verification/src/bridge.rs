//! The value bridge: the mapping between the human model and the wire
//! model, in both directions.
//!
//! Both directions are total. Where a value has no counterpart the outcome
//! is fixed: a number that the wire cannot carry becomes the absence marker,
//! a wire float that is no finite number becomes zero, bytes that are no
//! text are read with replacement characters, and a mapping key that is no
//! text is replaced by its printed form.

use crate::human::{
    collect_members, distinct_keys, lemma_array_view as lemma_human_array, lemma_collect_distinct,
    lemma_collect_members, lemma_object_view, member_models, put_member_value, Human, HumanNumber,
    HumanValue, Number,
};
use crate::ieee::{
    double_finite, double_from_unsigned, double_is_finite, unsigned_to_double, lemma_widen_single_exact,
    single_is_finite, single_to_double, widen_single,
};
use crate::msgpack::{outgoing, render_value, rendering};
use crate::text::{decode_lossy, lossy_text, REPLACEMENT};
use crate::wire::{lemma_array_view, lemma_mapping_view, Wire, WireInteger, WireValue};
use vstd::prelude::*;
use vstd::utf8::{encode_utf8, encode_utf8_valid_utf8, valid_utf8};

verus! {

/// The wire value for a human value.
///
/// An integer that fits in 64 signed bits stays an integer; a larger one
/// becomes the nearest double; a number that is neither that nor a finite
/// double becomes the absence marker. The key of an object member becomes a
/// text string.
pub open spec fn human_to_wire(value: Human) -> Wire
    decreases value,
{
    match value {
        Human::Null => Wire::Nil,
        Human::Boolean(b) => Wire::Boolean(b),
        Human::Number(Number::Integer(n)) => if i64::MIN <= n <= i64::MAX {
            Wire::Integer(n)
        } else if i64::MAX < n <= u64::MAX {
            Wire::Float64(double_from_unsigned(n as u64))
        } else {
            Wire::Nil
        },
        Human::Number(Number::Float(bits)) => if double_is_finite(bits) {
            Wire::Float64(bits)
        } else {
            Wire::Nil
        },
        Human::Text(s) => Wire::Text(s),
        Human::Array(items) => Wire::Array(
            Seq::new(
                items.len(),
                |i: int|
                    if 0 <= i < items.len() {
                        human_to_wire(items[i])
                    } else {
                        Wire::Nil
                    },
            ),
        ),
        Human::Object(members) => Wire::Mapping(
            Seq::new(
                members.len(),
                |i: int|
                    if 0 <= i < members.len() {
                        (Wire::Text(members[i].0), human_to_wire(members[i].1))
                    } else {
                        (Wire::Nil, Wire::Nil)
                    },
            ),
        ),
    }
}

/// The key under which the entry of a wire mapping enters an object: the
/// text of a text string, and the printed form of any other key.
pub open spec fn key_text(key: Wire) -> Seq<char> {
    match key {
        Wire::Text(s) => s,
        Wire::MalformedText(bytes) => lossy_text(bytes),
        other => rendering(outgoing(other)),
    }
}

/// The human value for a wire value.
///
/// An integer outside 64 bits, signed and unsigned, becomes null; a float
/// that is no finite number becomes the integer zero; bytes, and text that
/// is malformed, are read as text with replacement characters; an extension
/// becomes null. The entries of a mapping are assigned to an object one
/// after the other, so that of two entries with the same key text the later
/// one gives the value.
pub open spec fn wire_to_human(value: Wire) -> Human
    decreases value,
{
    match value {
        Wire::Nil => Human::Null,
        Wire::Boolean(b) => Human::Boolean(b),
        Wire::Integer(n) => if i64::MIN <= n <= u64::MAX {
            Human::Number(Number::Integer(n))
        } else {
            Human::Null
        },
        Wire::Float32(bits) => if single_is_finite(bits) {
            Human::Number(Number::Float(widen_single(bits)))
        } else {
            Human::Number(Number::Integer(0))
        },
        Wire::Float64(bits) => if double_is_finite(bits) {
            Human::Number(Number::Float(bits))
        } else {
            Human::Number(Number::Integer(0))
        },
        Wire::Text(s) => Human::Text(s),
        Wire::MalformedText(bytes) => Human::Text(lossy_text(bytes)),
        Wire::Binary(bytes) => Human::Text(lossy_text(bytes)),
        Wire::Array(items) => Human::Array(
            Seq::new(
                items.len(),
                |i: int|
                    if 0 <= i < items.len() {
                        wire_to_human(items[i])
                    } else {
                        Human::Null
                    },
            ),
        ),
        Wire::Mapping(entries) => Human::Object(collect_members(entry_members(entries))),
        Wire::Extension(_, _) => Human::Null,
    }
}

/// The assignments that the entries of a wire mapping make, in wire order:
/// each entry's key text and the human value of its value.
pub open spec fn entry_members(entries: Seq<(Wire, Wire)>) -> Seq<(Seq<char>, Human)>
    decreases entries,
{
    Seq::new(
        entries.len(),
        |i: int|
            if 0 <= i < entries.len() {
                (key_text(entries[i].0), wire_to_human(entries[i].1))
            } else {
                (Seq::empty(), Human::Null)
            },
    )
}

/// The value holds only null, booleans, text, integers that fit in 64 signed
/// bits, and arrays and objects of these.
pub open spec fn is_plain(value: Human) -> bool
    decreases value,
{
    match value {
        Human::Number(Number::Integer(n)) => i64::MIN <= n <= i64::MAX,
        Human::Number(Number::Float(_)) => false,
        Human::Array(items) => forall|i: int| 0 <= i < items.len() ==> is_plain(#[trigger] items[i]),
        Human::Object(members) => forall|i: int|
            0 <= i < members.len() ==> is_plain((#[trigger] members[i]).1),
        _ => true,
    }
}

/// A plain value comes back unchanged from the wire: going to the wire and
/// back is the identity on values that hold only null, booleans, text,
/// integers of 64 signed bits, and arrays and objects of these.
pub proof fn lemma_round_trip(value: Human)
    requires
        is_plain(value),
        value.well_formed(),
    ensures
        wire_to_human(human_to_wire(value)) == value,
    decreases value,
{
    match value {
        Human::Array(items) => {
            let there = human_to_wire(value)->Array_0;
            let back = wire_to_human(human_to_wire(value))->Array_0;
            assert forall|i: int| 0 <= i < items.len() implies back[i] == items[i] by {
                assert(there[i] == human_to_wire(items[i]));
                lemma_round_trip(items[i]);
            }
            assert(back =~= items);
        },
        Human::Object(members) => {
            let there = human_to_wire(value)->Mapping_0;
            let pairs = entry_members(there);
            assert forall|i: int| 0 <= i < members.len() implies pairs[i] == members[i] by {
                assert(there[i] == (Wire::Text(members[i].0), human_to_wire(members[i].1)));
                lemma_round_trip(members[i].1);
            }
            assert(pairs =~= members);
            lemma_collect_distinct(members);
        },
        _ => {},
    }
}

/// An integer that fits neither in 64 signed bits nor in 64 unsigned bits
/// becomes null.
pub proof fn lemma_integer_overflow(n: int)
    requires
        n < i64::MIN || n > u64::MAX,
    ensures
        wire_to_human(Wire::Integer(n)) == Human::Null,
{
}

/// A wire float of either width that is no finite number becomes the
/// integer zero.
pub proof fn lemma_non_finite_float(single: u32, double: u64)
    requires
        !single_is_finite(single),
        !double_is_finite(double),
    ensures
        wire_to_human(Wire::Float32(single)) == Human::Number(Number::Integer(0)),
        wire_to_human(Wire::Float64(double)) == Human::Number(Number::Integer(0)),
{
}

/// Whatever the wire value, its human value is well formed: every number in
/// it is an integer of 64 bits or a finite double, and no object in it holds
/// a key twice.
pub proof fn lemma_wire_to_human_well_formed(value: Wire)
    ensures
        wire_to_human(value).well_formed(),
    decreases value,
{
    match value {
        Wire::Float32(bits) => {
            if single_is_finite(bits) {
                lemma_widen_single_exact(bits);
            }
        },
        Wire::Array(items) => {
            let back = wire_to_human(value)->Array_0;
            assert forall|i: int| 0 <= i < back.len() implies (#[trigger] back[i]).well_formed() by {
                lemma_wire_to_human_well_formed(items[i]);
            }
        },
        Wire::Mapping(entries) => {
            let pairs = entry_members(entries);
            let members = collect_members(pairs);
            lemma_collect_members(pairs);
            assert forall|i: int| 0 <= i < members.len() implies (#[trigger] members[i]).1.well_formed() by {
                let j = choose|j: int| 0 <= j < pairs.len() && pairs[j] == members[i];
                lemma_wire_to_human_well_formed(entries[j].1);
            }
        },
        _ => {},
    }
}

/// Bytes that are no valid UTF-8 are read as a text that holds the
/// replacement character and whose own encoding differs from the bytes.
pub proof fn lemma_lossy_differs(bytes: Seq<u8>, text: Seq<char>)
    requires
        !valid_utf8(bytes),
    ensures
        encode_utf8(text) != bytes,
{
    encode_utf8_valid_utf8(text);
}

/// Converts a human value to the wire value that stands for it.
#[verifier::loop_isolation(false)]
pub fn json_to_msgpack(value: &HumanValue) -> (wire: WireValue)
    ensures
        wire@ == human_to_wire(value@),
    decreases value,
{
    match value {
        HumanValue::Null => WireValue::Nil,
        HumanValue::Boolean(b) => WireValue::Boolean(*b),
        HumanValue::Number(number) => {
            match number.as_i64() {
                Some(n) => WireValue::Integer(WireInteger::from_i64(n)),
                None => match number {
                    HumanNumber::PosInt(n) => WireValue::Float64(unsigned_to_double(*n)),
                    HumanNumber::Float(bits) => {
                        if double_finite(*bits) {
                            WireValue::Float64(*bits)
                        } else {
                            WireValue::Nil
                        }
                    },
                    HumanNumber::NegInt(_) => WireValue::Nil,
                },
            }
        },
        HumanValue::Text(s) => WireValue::Text(s.clone()),
        HumanValue::Array(items) => {
            let mut converted: Vec<WireValue> = Vec::new();
            let mut i: usize = 0;
            while i < items.len()
                invariant
                    i <= items.len(),
                    converted@.len() == i,
                    forall|j: int| 0 <= j < i ==> (#[trigger] converted@[j])@ == human_to_wire(items@[j]@),
                decreases items.len() - i,
            {
                let item = json_to_msgpack(&items[i]);
                converted.push(item);
                i += 1;
            }
            proof {
                lemma_human_array(*items);
                lemma_array_view(converted);
                assert(crate::wire::models(converted@) =~= human_to_wire(value@)->Array_0);
            }
            WireValue::Array(converted)
        },
        HumanValue::Object(members) => {
            let mut converted: Vec<(WireValue, WireValue)> = Vec::new();
            let mut i: usize = 0;
            while i < members.len()
                invariant
                    i <= members.len(),
                    converted@.len() == i,
                    forall|j: int|
                        0 <= j < i ==> (#[trigger] converted@[j]).0@ == Wire::Text(members@[j].0@)
                            && converted@[j].1@ == human_to_wire(members@[j].1@),
                decreases members.len() - i,
            {
                let key = WireValue::Text(members[i].0.clone());
                let item = json_to_msgpack(&members[i].1);
                converted.push((key, item));
                i += 1;
            }
            proof {
                lemma_object_view(*members);
                lemma_mapping_view(converted);
                assert(crate::wire::pair_models(converted@) =~= human_to_wire(value@)->Mapping_0);
            }
            WireValue::Mapping(converted)
        },
    }
}

/// The key under which the entry of a wire mapping enters an object.
pub fn key_string(key: &WireValue) -> (text: String)
    ensures
        text@ == key_text(key@),
{
    match key {
        WireValue::Text(s) => s.clone(),
        WireValue::MalformedText(bytes) => decode_lossy(bytes),
        _ => render_value(key),
    }
}

/// Converts a wire value to the human value that stands for it. It never
/// fails.
#[verifier::loop_isolation(false)]
pub fn msgpack_to_json(value: &WireValue) -> (json: HumanValue)
    ensures
        json@ == wire_to_human(value@),
        json@.well_formed(),
        value@ matches Wire::Binary(bytes) ==> (!valid_utf8(bytes) ==> (json@ matches Human::Text(text)
            && text.contains(REPLACEMENT) && encode_utf8(text) != bytes)),
    decreases value,
{
    proof {
        lemma_wire_to_human_well_formed(value@);
    }
    match value {
        WireValue::Nil => HumanValue::Null,
        WireValue::Boolean(b) => HumanValue::Boolean(*b),
        WireValue::Integer(n) => {
            match n.as_i64() {
                Some(signed) => HumanValue::Number(HumanNumber::from_i64(signed)),
                None => match n.as_u64() {
                    Some(unsigned) => HumanValue::Number(HumanNumber::PosInt(unsigned)),
                    None => HumanValue::Null,
                },
            }
        },
        WireValue::Float32(bits) => {
            match single_to_double(*bits) {
                Some(wide) => HumanValue::Number(HumanNumber::Float(wide)),
                None => HumanValue::Number(HumanNumber::PosInt(0)),
            }
        },
        WireValue::Float64(bits) => {
            if double_finite(*bits) {
                HumanValue::Number(HumanNumber::Float(*bits))
            } else {
                HumanValue::Number(HumanNumber::PosInt(0))
            }
        },
        WireValue::Text(s) => HumanValue::Text(s.clone()),
        WireValue::MalformedText(bytes) => HumanValue::Text(decode_lossy(bytes)),
        WireValue::Binary(bytes) => {
            let text = decode_lossy(bytes);
            proof {
                if !valid_utf8(bytes@) {
                    lemma_lossy_differs(bytes@, text@);
                }
            }
            HumanValue::Text(text)
        },
        WireValue::Array(items) => {
            let mut converted: Vec<HumanValue> = Vec::new();
            let mut i: usize = 0;
            while i < items.len()
                invariant
                    i <= items.len(),
                    converted@.len() == i,
                    forall|j: int| 0 <= j < i ==> (#[trigger] converted@[j])@ == wire_to_human(items@[j]@),
                decreases items.len() - i,
            {
                let item = msgpack_to_json(&items[i]);
                converted.push(item);
                i += 1;
            }
            proof {
                lemma_array_view(*items);
                lemma_human_array(converted);
                assert(crate::human::models(converted@) =~= wire_to_human(value@)->Array_0);
            }
            HumanValue::Array(converted)
        },
        WireValue::Mapping(entries) => {
            let ghost pairs: Seq<(Seq<char>, Human)> = Seq::new(
                entries@.len(),
                |i: int| (key_text(entries@[i].0@), wire_to_human(entries@[i].1@)),
            );
            let mut members: Vec<(String, HumanValue)> = Vec::new();
            let mut i: usize = 0;
            proof {
                assert(pairs.take(0) =~= Seq::empty());
                assert(member_models(members@) =~= collect_members(pairs.take(0)));
            }
            while i < entries.len()
                invariant
                    i <= entries.len(),
                    member_models(members@) == collect_members(pairs.take(i as int)),
                    distinct_keys(member_models(members@)),
                decreases entries.len() - i,
            {
                let key = key_string(&entries[i].0);
                let item = msgpack_to_json(&entries[i].1);
                put_member_value(&mut members, key, item);
                proof {
                    let next = pairs.take(i + 1);
                    assert(next.drop_last() =~= pairs.take(i as int));
                    assert(next.last() == pairs[i as int]);
                }
                i += 1;
            }
            proof {
                assert(pairs.take(entries@.len() as int) =~= pairs);
                lemma_mapping_view(*entries);
                lemma_object_view(members);
                assert(entry_members(value@->Mapping_0) =~= pairs);
            }
            HumanValue::Object(members)
        },
        WireValue::Extension(_, _) => HumanValue::Null,
    }
}

} // verus!
