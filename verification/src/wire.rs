//! The wire value model: what the daemon's binary protocol can carry.
//!
//! [`WireValue`] is the executable tree, [`Wire`] its mathematical model. The
//! two floating-point kinds hold the bit pattern of the number, so that no
//! floating-point value is ever computed with.

use vstd::prelude::*;

verus! {

/// An integer on the wire: anything from -2^63 to 2^64 - 1.
///
/// Values that the library makes hold a negative number under `Signed` and
/// every other number under `Unsigned`.
#[derive(Debug, PartialEq, Eq)]
pub enum WireInteger {
    Unsigned(u64),
    Signed(i64),
}

impl WireInteger {
    /// The integer that is held.
    pub open spec fn value(&self) -> int {
        match self {
            WireInteger::Unsigned(n) => *n as int,
            WireInteger::Signed(n) => *n as int,
        }
    }

    /// A signed number, in the form the library uses throughout.
    pub fn from_i64(n: i64) -> (integer: WireInteger)
        ensures
            integer.value() == n,
            n < 0 ==> integer == WireInteger::Signed(n),
            n >= 0 ==> integer == WireInteger::Unsigned(n as u64),
    {
        if n < 0 {
            WireInteger::Signed(n)
        } else {
            WireInteger::Unsigned(n as u64)
        }
    }

    /// The number as a signed 64-bit integer, where it is one.
    pub fn as_i64(&self) -> (signed: Option<i64>)
        ensures
            signed == (if i64::MIN <= self.value() <= i64::MAX {
                Some(self.value() as i64)
            } else {
                None
            }),
    {
        match self {
            WireInteger::Unsigned(n) => {
                if *n <= 0x7fff_ffff_ffff_ffff {
                    Some(*n as i64)
                } else {
                    None
                }
            },
            WireInteger::Signed(n) => Some(*n),
        }
    }

    /// The number as an unsigned 64-bit integer, where it is one.
    pub fn as_u64(&self) -> (unsigned: Option<u64>)
        ensures
            unsigned == (if 0 <= self.value() <= u64::MAX {
                Some(self.value() as u64)
            } else {
                None
            }),
    {
        match self {
            WireInteger::Unsigned(n) => Some(*n),
            WireInteger::Signed(n) => {
                if *n >= 0 {
                    Some(*n as u64)
                } else {
                    None
                }
            },
        }
    }
}

/// A value of the wire format.
#[derive(Debug, PartialEq, Eq)]
pub enum WireValue {
    /// The absence marker.
    Nil,
    Boolean(bool),
    Integer(WireInteger),
    /// A 32-bit float, as its bits.
    Float32(u32),
    /// A 64-bit float, as its bits.
    Float64(u64),
    /// A text string.
    Text(String),
    /// A text string whose bytes are no valid text; the bytes as received.
    MalformedText(Vec<u8>),
    /// A raw byte sequence.
    Binary(Vec<u8>),
    Array(Vec<WireValue>),
    /// Key and value pairs in wire order; a key may be of any kind and may
    /// occur more than once.
    Mapping(Vec<(WireValue, WireValue)>),
    /// An opaque extension: its tag and its bytes.
    Extension(i8, Vec<u8>),
}

/// The mathematical model of a [`WireValue`].
pub enum Wire {
    Nil,
    Boolean(bool),
    Integer(int),
    Float32(u32),
    Float64(u64),
    Text(Seq<char>),
    MalformedText(Seq<u8>),
    Binary(Seq<u8>),
    Array(Seq<Wire>),
    Mapping(Seq<(Wire, Wire)>),
    Extension(i8, Seq<u8>),
}

impl WireValue {
    /// The model of this value, element by element.
    pub open spec fn model(&self) -> Wire
        decreases self,
    {
        match self {
            WireValue::Nil => Wire::Nil,
            WireValue::Boolean(b) => Wire::Boolean(*b),
            WireValue::Integer(n) => Wire::Integer(n.value()),
            WireValue::Float32(bits) => Wire::Float32(*bits),
            WireValue::Float64(bits) => Wire::Float64(*bits),
            WireValue::Text(s) => Wire::Text(s@),
            WireValue::MalformedText(bytes) => Wire::MalformedText(bytes@),
            WireValue::Binary(bytes) => Wire::Binary(bytes@),
            WireValue::Array(items) => Wire::Array(
                Seq::new(
                    items@.len(),
                    |i: int|
                        if 0 <= i < items@.len() {
                            items@[i].model()
                        } else {
                            Wire::Nil
                        },
                ),
            ),
            WireValue::Mapping(entries) => Wire::Mapping(
                Seq::new(
                    entries@.len(),
                    |i: int|
                        if 0 <= i < entries@.len() {
                            (entries@[i].0.model(), entries@[i].1.model())
                        } else {
                            (Wire::Nil, Wire::Nil)
                        },
                ),
            ),
            WireValue::Extension(tag, bytes) => Wire::Extension(*tag, bytes@),
        }
    }

    /// A text string with the given content.
    pub fn text(content: &str) -> (value: WireValue)
        ensures
            value@ == Wire::Text(content@),
    {
        WireValue::Text(content.to_owned())
    }

    /// An unsigned integer.
    pub fn unsigned(n: u64) -> (value: WireValue)
        ensures
            value@ == Wire::Integer(n as int),
            value == WireValue::Integer(WireInteger::Unsigned(n)),
    {
        WireValue::Integer(WireInteger::Unsigned(n))
    }

    /// A signed integer.
    pub fn signed(n: i64) -> (value: WireValue)
        ensures
            value@ == Wire::Integer(n as int),
    {
        WireValue::Integer(WireInteger::from_i64(n))
    }

    /// Says whether this is the absence marker.
    pub fn is_nil(&self) -> (nil: bool)
        ensures
            nil == (self@ is Nil),
    {
        match self {
            WireValue::Nil => true,
            _ => false,
        }
    }
}

impl View for WireValue {
    type V = Wire;

    open spec fn view(&self) -> Wire {
        self.model()
    }
}

/// The models of a run of values, in order.
pub open spec fn models(values: Seq<WireValue>) -> Seq<Wire> {
    Seq::new(values.len(), |i: int| values[i]@)
}

/// The models of a run of pairs, in order.
pub open spec fn pair_models(pairs: Seq<(WireValue, WireValue)>) -> Seq<(Wire, Wire)> {
    Seq::new(pairs.len(), |i: int| (pairs[i].0@, pairs[i].1@))
}

/// An array's model lists the models of its items.
pub proof fn lemma_array_view(items: Vec<WireValue>)
    ensures
        WireValue::Array(items)@ == Wire::Array(models(items@)),
{
    assert(WireValue::Array(items)@->Array_0 =~= models(items@));
}

/// A mapping's model lists the models of its pairs.
pub proof fn lemma_mapping_view(entries: Vec<(WireValue, WireValue)>)
    ensures
        WireValue::Mapping(entries)@ == Wire::Mapping(pair_models(entries@)),
{
    assert(WireValue::Mapping(entries)@->Mapping_0 =~= pair_models(entries@));
}

} // verus!
