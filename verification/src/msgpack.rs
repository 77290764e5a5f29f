//! The boundary with `rmpv`, which encodes, decodes and prints wire values.
//!
//! `rmpv` has its own tree type. The library converts a [`WireValue`] to it
//! and back one node at a time, through the small trusted functions of this
//! module, and proves the conversions of whole trees from them.

use crate::wire::{Wire, WireInteger, WireValue};
use rmp::decode::RmpRead;
use rmpv::Value;
use vstd::prelude::*;
use vstd::slice::slice_to_vec;

verus! {

/// `rmpv::Value`, the tree type of `rmpv`. The library looks into it only
/// through the functions below.
#[verifier::external_type_specification]
#[verifier::external_body]
pub struct ExValue(rmpv::Value);

/// `rmpv::decode::Error`, which `rmpv::decode::read_value` reports. The
/// library only turns it into its text.
#[verifier::external_type_specification]
#[verifier::external_body]
pub struct ExDecodeError(rmpv::decode::Error);

/// The wire value that an `rmpv::Value` holds. A string that `rmpv` keeps as
/// bytes because they are no valid UTF-8 is a [`Wire::MalformedText`].
pub uninterp spec fn wire_of(value: Value) -> Wire;

/// The bytes that `rmpv::encode::write_value` writes for a value into an
/// empty buffer, or `None` where it reports an error.
pub uninterp spec fn encoding(value: Wire) -> Option<Seq<u8>>;

/// The value that `rmpv::decode::read_value` reads from the front of a byte
/// sequence, or `None` where it reports an error.
pub uninterp spec fn decoding(bytes: Seq<u8>) -> Option<Wire>;

/// The text that `rmpv` prints for a value (its `Display`).
pub uninterp spec fn rendering(value: Wire) -> Seq<char>;

/// The wire values that a run of `rmpv` values holds.
pub open spec fn wires_of(values: Seq<Value>) -> Seq<Wire> {
    Seq::new(values.len(), |i: int| wire_of(values[i]))
}

/// The wire pairs that a run of `rmpv` pairs holds.
pub open spec fn wire_pairs_of(pairs: Seq<(Value, Value)>) -> Seq<(Wire, Wire)> {
    Seq::new(pairs.len(), |i: int| (wire_of(pairs[i].0), wire_of(pairs[i].1)))
}

/// One node of an `rmpv::Value`, taken apart: plain values, and the children
/// still in `rmpv`'s type.
pub enum Unpacked {
    Nil,
    Boolean(bool),
    /// The integer as `u64` and as `i64`, each where it fits.
    Integer(Option<u64>, Option<i64>),
    Float32(u32),
    Float64(u64),
    /// The text where the string is valid UTF-8, and the string's bytes.
    Text(Option<String>, Vec<u8>),
    Binary(Vec<u8>),
    Array(Vec<Value>),
    Mapping(Vec<(Value, Value)>),
    Extension(i8, Vec<u8>),
}

impl Unpacked {
    /// The wire value that the node stands for.
    pub open spec fn wire(&self) -> Wire {
        match self {
            Unpacked::Nil => Wire::Nil,
            Unpacked::Boolean(b) => Wire::Boolean(*b),
            Unpacked::Integer(Some(n), _) => Wire::Integer(*n as int),
            Unpacked::Integer(None, Some(n)) => Wire::Integer(*n as int),
            Unpacked::Integer(None, None) => Wire::Integer(0),
            Unpacked::Float32(bits) => Wire::Float32(*bits),
            Unpacked::Float64(bits) => Wire::Float64(*bits),
            Unpacked::Text(Some(text), _) => Wire::Text(text@),
            Unpacked::Text(None, bytes) => Wire::MalformedText(bytes@),
            Unpacked::Binary(bytes) => Wire::Binary(bytes@),
            Unpacked::Array(items) => Wire::Array(wires_of(items@)),
            Unpacked::Mapping(entries) => Wire::Mapping(wire_pairs_of(entries@)),
            Unpacked::Extension(tag, bytes) => Wire::Extension(*tag, bytes@),
        }
    }
}

/// Takes an `rmpv::Value` apart, one arm for each of its variants. A float
/// gives its bits (`to_bits`), an integer what `Integer::as_u64` and
/// `Integer::as_i64` return, a string what `Utf8String::as_str` returns and
/// its bytes (`Utf8String::into_bytes`).
///
/// Trusted: that the parts are those of the value, and that one of the two
/// integer accessors answers for every integer `rmpv` can hold.
#[verifier::external_body]
fn unpack(value: Value) -> (node: Unpacked)
    ensures
        node.wire() == wire_of(value),
        node matches Unpacked::Integer(unsigned, signed) ==> unsigned is Some || signed is Some,
{
    match value {
        Value::Nil => Unpacked::Nil,
        Value::Boolean(b) => Unpacked::Boolean(b),
        Value::Integer(i) => Unpacked::Integer(i.as_u64(), i.as_i64()),
        Value::F32(f) => Unpacked::Float32(f.to_bits()),
        Value::F64(f) => Unpacked::Float64(f.to_bits()),
        Value::String(s) => Unpacked::Text(s.as_str().map(String::from), s.into_bytes()),
        Value::Binary(b) => Unpacked::Binary(b),
        Value::Array(a) => Unpacked::Array(a),
        Value::Map(m) => Unpacked::Mapping(m),
        Value::Ext(t, b) => Unpacked::Extension(t, b),
    }
}

/// A value without children that is neither a float nor malformed text.
pub open spec fn is_plain_leaf(value: Wire) -> bool {
    value is Nil || value is Boolean || value is Integer || value is Text || value is Binary
        || value is Extension
}

/// Makes the `rmpv::Value` for a leaf: `Value::Nil`, `Value::Boolean`,
/// `Value::from` on a `u64`, an `i64` or a `&str`, `Value::Binary`,
/// `Value::Ext`.
///
/// Trusted: that each constructor holds what it was given.
#[verifier::external_body]
fn pack_leaf(leaf: &WireValue) -> (value: Value)
    requires
        is_plain_leaf(leaf@),
    ensures
        wire_of(value) == leaf@,
{
    match leaf {
        WireValue::Boolean(b) => Value::Boolean(*b),
        WireValue::Integer(WireInteger::Unsigned(n)) => Value::from(*n),
        WireValue::Integer(WireInteger::Signed(n)) => Value::from(*n),
        WireValue::Text(s) => Value::from(s.as_str()),
        WireValue::Binary(b) => Value::Binary(b.clone()),
        WireValue::Extension(t, b) => Value::Ext(*t, b.clone()),
        _ => Value::Nil,
    }
}

/// Makes the `rmpv::Value` for a 32-bit float from its bits:
/// `RmpRead::read_data_f32` of `rmp` reads the four bytes, most significant
/// first, and `Value::F32` holds the number.
///
/// Trusted: that the number read has exactly these bits.
#[verifier::external_body]
fn pack_single(bits: u32) -> (value: Value)
    ensures
        wire_of(value) == Wire::Float32(bits),
{
    Value::F32(RmpRead::read_data_f32(&mut &bits.to_be_bytes()[..]).unwrap_or_default())
}

/// Makes the `rmpv::Value` for a 64-bit float from its bits:
/// `RmpRead::read_data_f64` of `rmp` reads the eight bytes, most significant
/// first, and `Value::F64` holds the number.
///
/// Trusted: that the number read has exactly these bits.
#[verifier::external_body]
fn pack_double(bits: u64) -> (value: Value)
    ensures
        wire_of(value) == Wire::Float64(bits),
{
    Value::F64(RmpRead::read_data_f64(&mut &bits.to_be_bytes()[..]).unwrap_or_default())
}

/// `Value::Array` on the items.
#[verifier::external_body]
fn pack_array(items: Vec<Value>) -> (value: Value)
    ensures
        wire_of(value) == Wire::Array(wires_of(items@)),
{
    Value::Array(items)
}

/// `Value::Map` on the pairs.
#[verifier::external_body]
fn pack_mapping(entries: Vec<(Value, Value)>) -> (value: Value)
    ensures
        wire_of(value) == Wire::Mapping(wire_pairs_of(entries@)),
{
    Value::Map(entries)
}

/// `rmpv::encode::write_value` into an empty buffer; an error comes back as
/// its text.
///
/// Trusted: that the outcome, the bytes written or that an error is
/// reported, depends on the value alone. Nothing is claimed of which values
/// are written without an error, nor of an error's text.
#[verifier::external_body]
fn write_value(value: &Value) -> (written: Result<Vec<u8>, String>)
    ensures
        match written {
            Ok(bytes) => encoding(wire_of(*value)) == Some(bytes@),
            Err(_) => encoding(wire_of(*value)) is None,
        },
{
    let mut buffer: Vec<u8> = Vec::new();
    match rmpv::encode::write_value(&mut buffer, value) {
        Ok(()) => Ok(buffer),
        Err(error) => Err(error.to_string()),
    }
}

/// `rmpv::decode::read_value` on a byte slice. It reads one value from the
/// front and leaves what follows unread.
///
/// Trusted: that the outcome depends on the bytes alone.
#[verifier::external_body]
fn read_value(bytes: &[u8]) -> (read: Result<Value, rmpv::decode::Error>)
    ensures
        match read {
            Ok(value) => decoding(bytes@) == Some(wire_of(value)),
            Err(_) => decoding(bytes@) is None,
        },
{
    rmpv::decode::read_value(&mut &bytes[..])
}

/// The text of a decoding error (its `Display`). Nothing is claimed of it.
#[verifier::external_body]
fn error_text(error: &rmpv::decode::Error) -> (text: String) {
    error.to_string()
}

/// The text that `rmpv` prints for a value (`Display for Value`).
///
/// Trusted: that the text depends on the value alone.
#[verifier::external_body]
fn display(value: &Value) -> (text: String)
    ensures
        text@ == rendering(wire_of(*value)),
{
    value.to_string()
}

/// A value as `rmpv` can hold it. `rmpv` offers no way to make a string out
/// of bytes that are no valid UTF-8, and writes and prints such a string as
/// it does a byte sequence: malformed text goes out as binary.
pub open spec fn outgoing(value: Wire) -> Wire
    decreases value,
{
    match value {
        Wire::MalformedText(bytes) => Wire::Binary(bytes),
        Wire::Array(items) => Wire::Array(
            Seq::new(
                items.len(),
                |i: int|
                    if 0 <= i < items.len() {
                        outgoing(items[i])
                    } else {
                        Wire::Nil
                    },
            ),
        ),
        Wire::Mapping(entries) => Wire::Mapping(
            Seq::new(
                entries.len(),
                |i: int|
                    if 0 <= i < entries.len() {
                        (outgoing(entries[i].0), outgoing(entries[i].1))
                    } else {
                        (Wire::Nil, Wire::Nil)
                    },
            ),
        ),
        other => other,
    }
}

/// Converts a value to `rmpv`'s type.
#[verifier::loop_isolation(false)]
pub fn to_rmpv(value: &WireValue) -> (outside: Value)
    ensures
        wire_of(outside) == outgoing(value@),
    decreases value,
{
    match value {
        WireValue::Float32(bits) => pack_single(*bits),
        WireValue::Float64(bits) => pack_double(*bits),
        WireValue::MalformedText(bytes) => {
            let binary = WireValue::Binary(slice_to_vec(bytes.as_slice()));
            pack_leaf(&binary)
        },
        WireValue::Array(items) => {
            let mut packed: Vec<Value> = Vec::new();
            let mut i: usize = 0;
            while i < items.len()
                invariant
                    i <= items.len(),
                    packed@.len() == i,
                    forall|j: int| 0 <= j < i ==> wire_of(#[trigger] packed@[j]) == outgoing(items@[j]@),
                decreases items.len() - i,
            {
                let item = to_rmpv(&items[i]);
                packed.push(item);
                i += 1;
            }
            proof {
                crate::wire::lemma_array_view(*items);
                assert(wires_of(packed@) =~= outgoing(value@)->Array_0);
            }
            pack_array(packed)
        },
        WireValue::Mapping(entries) => {
            let mut packed: Vec<(Value, Value)> = Vec::new();
            let mut i: usize = 0;
            while i < entries.len()
                invariant
                    i <= entries.len(),
                    packed@.len() == i,
                    forall|j: int|
                        0 <= j < i ==> wire_of((#[trigger] packed@[j]).0) == outgoing(entries@[j].0@)
                            && wire_of(packed@[j].1) == outgoing(entries@[j].1@),
                decreases entries.len() - i,
            {
                let key = to_rmpv(&entries[i].0);
                let item = to_rmpv(&entries[i].1);
                packed.push((key, item));
                i += 1;
            }
            proof {
                crate::wire::lemma_mapping_view(*entries);
                assert(wire_pairs_of(packed@) =~= outgoing(value@)->Mapping_0);
            }
            pack_mapping(packed)
        },
        _ => pack_leaf(value),
    }
}

/// Converts a value from `rmpv`'s type.
#[verifier::loop_isolation(false)]
pub fn from_rmpv(outside: Value) -> (value: WireValue)
    ensures
        value@ == wire_of(outside),
    decreases wire_of(outside),
{
    let node = unpack(outside);
    match node {
        Unpacked::Nil => WireValue::Nil,
        Unpacked::Boolean(b) => WireValue::Boolean(b),
        Unpacked::Integer(Some(n), _) => WireValue::Integer(WireInteger::Unsigned(n)),
        Unpacked::Integer(None, Some(n)) => WireValue::Integer(WireInteger::from_i64(n)),
        Unpacked::Integer(None, None) => WireValue::Integer(WireInteger::Unsigned(0)),
        Unpacked::Float32(bits) => WireValue::Float32(bits),
        Unpacked::Float64(bits) => WireValue::Float64(bits),
        Unpacked::Text(Some(text), _) => WireValue::Text(text),
        Unpacked::Text(None, bytes) => WireValue::MalformedText(bytes),
        Unpacked::Binary(bytes) => WireValue::Binary(bytes),
        Unpacked::Array(items) => {
            let ghost source = items@;
            let mut items = items;
            // taken from the back, so the converted items come out last first
            let mut backwards: Vec<WireValue> = Vec::new();
            while items.len() > 0
                invariant
                    items@.len() + backwards@.len() == source.len(),
                    items@ == source.take(items@.len() as int),
                    forall|j: int|
                        0 <= j < backwards@.len() ==> (#[trigger] backwards@[j])@ == wire_of(
                            source[source.len() - 1 - j],
                        ),
                decreases items.len(),
            {
                let ghost k = items@.len() - 1;
                let item = items.pop().unwrap();
                assert(item == source[k]);
                assert(wires_of(source)[k] == wire_of(item));
                assert(wire_of(outside) == Wire::Array(wires_of(source)));
                assert(decreases_to!(wire_of(outside)->Array_0 => wire_of(outside)->Array_0[k]));
                assert(decreases_to!(wire_of(outside) => wire_of(outside)->Array_0[k]));
                let converted = from_rmpv(item);
                backwards.push(converted);
            }
            let mut converted: Vec<WireValue> = Vec::new();
            while backwards.len() > 0
                invariant
                    converted@.len() + backwards@.len() == source.len(),
                    forall|j: int|
                        0 <= j < backwards@.len() ==> (#[trigger] backwards@[j])@ == wire_of(
                            source[source.len() - 1 - j],
                        ),
                    forall|j: int| 0 <= j < converted@.len() ==> (#[trigger] converted@[j])@ == wire_of(source[j]),
                decreases backwards.len(),
            {
                let item = backwards.pop().unwrap();
                converted.push(item);
            }
            proof {
                crate::wire::lemma_array_view(converted);
                assert(crate::wire::models(converted@) =~= wires_of(source));
            }
            WireValue::Array(converted)
        },
        Unpacked::Mapping(entries) => {
            let ghost source = entries@;
            let mut entries = entries;
            let mut backwards: Vec<(WireValue, WireValue)> = Vec::new();
            while entries.len() > 0
                invariant
                    entries@.len() + backwards@.len() == source.len(),
                    entries@ == source.take(entries@.len() as int),
                    forall|j: int|
                        0 <= j < backwards@.len() ==> (#[trigger] backwards@[j]).0@ == wire_of(
                            source[source.len() - 1 - j].0,
                        ) && backwards@[j].1@ == wire_of(source[source.len() - 1 - j].1),
                decreases entries.len(),
            {
                let ghost k = entries@.len() - 1;
                let entry = entries.pop().unwrap();
                assert(entry == source[k]);
                assert(wire_pairs_of(source)[k] == (wire_of(entry.0), wire_of(entry.1)));
                assert(wire_of(outside) == Wire::Mapping(wire_pairs_of(source)));
                assert(decreases_to!(wire_of(outside)->Mapping_0 => wire_of(outside)->Mapping_0[k]));
                assert(decreases_to!(wire_of(outside) => wire_of(outside)->Mapping_0[k].0));
                assert(decreases_to!(wire_of(outside) => wire_of(outside)->Mapping_0[k].1));
                let key = from_rmpv(entry.0);
                let item = from_rmpv(entry.1);
                backwards.push((key, item));
            }
            let mut converted: Vec<(WireValue, WireValue)> = Vec::new();
            while backwards.len() > 0
                invariant
                    converted@.len() + backwards@.len() == source.len(),
                    forall|j: int|
                        0 <= j < backwards@.len() ==> (#[trigger] backwards@[j]).0@ == wire_of(
                            source[source.len() - 1 - j].0,
                        ) && backwards@[j].1@ == wire_of(source[source.len() - 1 - j].1),
                    forall|j: int|
                        0 <= j < converted@.len() ==> (#[trigger] converted@[j]).0@ == wire_of(source[j].0)
                            && converted@[j].1@ == wire_of(source[j].1),
                decreases backwards.len(),
            {
                let entry = backwards.pop().unwrap();
                converted.push(entry);
            }
            proof {
                crate::wire::lemma_mapping_view(converted);
                assert(crate::wire::pair_models(converted@) =~= wire_pairs_of(source));
            }
            WireValue::Mapping(converted)
        },
        Unpacked::Extension(tag, bytes) => WireValue::Extension(tag, bytes),
    }
}

/// Encodes a value in the wire's binary format: the value goes to `rmpv` as
/// [`outgoing`] says, and the outcome is the encoder's. What `rmpv` reports
/// as an error comes back as the error's text.
pub fn encode_value(value: &WireValue) -> (encoded: Result<Vec<u8>, String>)
    ensures
        match encoded {
            Ok(bytes) => encoding(outgoing(value@)) == Some(bytes@),
            Err(_) => encoding(outgoing(value@)) is None,
        },
{
    let outside = to_rmpv(value);
    write_value(&outside)
}

/// Decodes one value from the front of a byte sequence; bytes that follow
/// it are ignored. What `rmpv` reports as an error comes back as the error's
/// text.
pub fn decode_value(bytes: &[u8]) -> (decoded: Result<WireValue, String>)
    ensures
        match decoded {
            Ok(value) => decoding(bytes@) == Some(value@),
            Err(_) => decoding(bytes@) is None,
        },
{
    match read_value(bytes) {
        Ok(outside) => Ok(from_rmpv(outside)),
        Err(error) => Err(error_text(&error)),
    }
}

/// The text that stands for a value where one is to be shown.
pub fn render_value(value: &WireValue) -> (text: String)
    ensures
        text@ == rendering(outgoing(value@)),
{
    let outside = to_rmpv(value);
    display(&outside)
}

} // verus!
