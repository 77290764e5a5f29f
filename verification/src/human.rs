//! The human value model: what the command line takes in and prints.
//!
//! [`HumanValue`] is the executable tree, [`Human`] its mathematical model.
//! An object keeps its members in the order in which their keys first came,
//! and no key occurs twice.

use crate::ieee::{double_finite, double_is_finite};
use vstd::prelude::*;

verus! {

/// A number: an integer from -2^63 to 2^64 - 1, or a finite double.
///
/// Values that the library makes hold a negative integer under `NegInt` and
/// every other integer under `PosInt`.
#[derive(Debug, PartialEq, Eq)]
pub enum HumanNumber {
    PosInt(u64),
    NegInt(i64),
    /// A double, as its bits.
    Float(u64),
}

/// The mathematical model of a [`HumanNumber`].
pub enum Number {
    Integer(int),
    /// A double, as its bits.
    Float(u64),
}

impl Number {
    /// The integer fits in 64 bits, signed or unsigned; the double is finite.
    pub open spec fn well_formed(self) -> bool {
        match self {
            Number::Integer(n) => i64::MIN <= n <= u64::MAX,
            Number::Float(bits) => double_is_finite(bits),
        }
    }
}

impl View for HumanNumber {
    type V = Number;

    open spec fn view(&self) -> Number {
        match self {
            HumanNumber::PosInt(n) => Number::Integer(*n as int),
            HumanNumber::NegInt(n) => Number::Integer(*n as int),
            HumanNumber::Float(bits) => Number::Float(*bits),
        }
    }
}

impl HumanNumber {
    /// A signed integer, in the form the library uses throughout.
    pub fn from_i64(n: i64) -> (number: HumanNumber)
        ensures
            number@ == Number::Integer(n as int),
            n < 0 ==> number == HumanNumber::NegInt(n),
            n >= 0 ==> number == HumanNumber::PosInt(n as u64),
    {
        if n < 0 {
            HumanNumber::NegInt(n)
        } else {
            HumanNumber::PosInt(n as u64)
        }
    }

    /// An unsigned integer.
    pub fn from_u64(n: u64) -> (number: HumanNumber)
        ensures
            number == HumanNumber::PosInt(n),
    {
        HumanNumber::PosInt(n)
    }

    /// A double given by its bits, where they denote a finite number.
    pub fn from_double_bits(bits: u64) -> (number: Option<HumanNumber>)
        ensures
            number == (if double_is_finite(bits) {
                Some(HumanNumber::Float(bits))
            } else {
                None
            }),
    {
        if double_finite(bits) {
            Some(HumanNumber::Float(bits))
        } else {
            None
        }
    }

    /// The number as a signed 64-bit integer, where it is one.
    pub fn as_i64(&self) -> (signed: Option<i64>)
        ensures
            signed == (match self@ {
                Number::Integer(n) if i64::MIN <= n <= i64::MAX => Some(n as i64),
                _ => None,
            }),
    {
        match self {
            HumanNumber::PosInt(n) => {
                if *n <= 0x7fff_ffff_ffff_ffff {
                    Some(*n as i64)
                } else {
                    None
                }
            },
            HumanNumber::NegInt(n) => Some(*n),
            HumanNumber::Float(_) => None,
        }
    }
}

/// A value of the human format.
#[derive(Debug, PartialEq, Eq)]
pub enum HumanValue {
    Null,
    Boolean(bool),
    Number(HumanNumber),
    Text(String),
    Array(Vec<HumanValue>),
    /// Members in the order in which their keys first came.
    Object(Vec<(String, HumanValue)>),
}

/// The mathematical model of a [`HumanValue`].
pub enum Human {
    Null,
    Boolean(bool),
    Number(Number),
    Text(Seq<char>),
    Array(Seq<Human>),
    Object(Seq<(Seq<char>, Human)>),
}

/// Some member has the key.
pub open spec fn has_key(members: Seq<(Seq<char>, Human)>, key: Seq<char>) -> bool {
    exists|i: int| 0 <= i < members.len() && (#[trigger] members[i]).0 == key
}

/// No key occurs twice.
pub open spec fn distinct_keys(members: Seq<(Seq<char>, Human)>) -> bool {
    forall|i: int, j: int|
        0 <= i < j < members.len() ==> (#[trigger] members[i]).0 != (#[trigger] members[j]).0
}

/// The place of a member with the key.
pub open spec fn index_of_key(members: Seq<(Seq<char>, Human)>, key: Seq<char>) -> int {
    choose|i: int| 0 <= i < members.len() && (#[trigger] members[i]).0 == key
}

/// Assignment into an object: the member with the key gets the value and
/// keeps its place; a new key goes to the end.
pub open spec fn put_member(
    members: Seq<(Seq<char>, Human)>,
    key: Seq<char>,
    value: Human,
) -> Seq<(Seq<char>, Human)> {
    if has_key(members, key) {
        members.update(index_of_key(members, key), (key, value))
    } else {
        members.push((key, value))
    }
}

/// The object that a run of assignments builds, the first assignment first.
pub open spec fn collect_members(pairs: Seq<(Seq<char>, Human)>) -> Seq<(Seq<char>, Human)>
    decreases pairs.len(),
{
    if pairs.len() == 0 {
        Seq::empty()
    } else {
        put_member(collect_members(pairs.drop_last()), pairs.last().0, pairs.last().1)
    }
}

impl Human {
    /// Every number is well formed and no object holds a key twice.
    pub open spec fn well_formed(self) -> bool
        decreases self,
    {
        match self {
            Human::Number(n) => n.well_formed(),
            Human::Array(items) => forall|i: int|
                0 <= i < items.len() ==> (#[trigger] items[i]).well_formed(),
            Human::Object(members) => distinct_keys(members) && forall|i: int|
                0 <= i < members.len() ==> (#[trigger] members[i]).1.well_formed(),
            _ => true,
        }
    }
}

impl HumanValue {
    /// The model of this value, element by element.
    pub open spec fn model(&self) -> Human
        decreases self,
    {
        match self {
            HumanValue::Null => Human::Null,
            HumanValue::Boolean(b) => Human::Boolean(*b),
            HumanValue::Number(n) => Human::Number(n@),
            HumanValue::Text(s) => Human::Text(s@),
            HumanValue::Array(items) => Human::Array(
                Seq::new(
                    items@.len(),
                    |i: int|
                        if 0 <= i < items@.len() {
                            items@[i].model()
                        } else {
                            Human::Null
                        },
                ),
            ),
            HumanValue::Object(members) => Human::Object(
                Seq::new(
                    members@.len(),
                    |i: int|
                        if 0 <= i < members@.len() {
                            (members@[i].0@, members@[i].1.model())
                        } else {
                            (Seq::empty(), Human::Null)
                        },
                ),
            ),
        }
    }

    /// A text value with the given content.
    pub fn text(content: &str) -> (value: HumanValue)
        ensures
            value@ == Human::Text(content@),
    {
        HumanValue::Text(content.to_owned())
    }

    /// A signed integer.
    pub fn integer(n: i64) -> (value: HumanValue)
        ensures
            value@ == Human::Number(Number::Integer(n as int)),
    {
        HumanValue::Number(HumanNumber::from_i64(n))
    }
}

impl View for HumanValue {
    type V = Human;

    open spec fn view(&self) -> Human {
        self.model()
    }
}

/// The models of a run of values, in order.
pub open spec fn models(values: Seq<HumanValue>) -> Seq<Human> {
    Seq::new(values.len(), |i: int| values[i]@)
}

/// The models of a run of members, in order.
pub open spec fn member_models(members: Seq<(String, HumanValue)>) -> Seq<(Seq<char>, Human)> {
    Seq::new(members.len(), |i: int| (members[i].0@, members[i].1@))
}

/// An array's model lists the models of its items.
pub proof fn lemma_array_view(items: Vec<HumanValue>)
    ensures
        HumanValue::Array(items)@ == Human::Array(models(items@)),
{
    assert(HumanValue::Array(items)@->Array_0 =~= models(items@));
}

/// An object's model lists the models of its members.
pub proof fn lemma_object_view(members: Vec<(String, HumanValue)>)
    ensures
        HumanValue::Object(members)@ == Human::Object(member_models(members@)),
{
    assert(HumanValue::Object(members)@->Object_0 =~= member_models(members@));
}

/// Assignment keeps the keys distinct, changes at most the one member, and
/// leaves the key in the object.
pub proof fn lemma_put_member(members: Seq<(Seq<char>, Human)>, key: Seq<char>, value: Human)
    requires
        distinct_keys(members),
    ensures
        distinct_keys(put_member(members, key, value)),
        has_key(put_member(members, key, value), key),
        forall|i: int|
            0 <= i < put_member(members, key, value).len() ==> (#[trigger] put_member(members, key, value)[i])
                == (key, value) || (i < members.len() && put_member(members, key, value)[i] == members[i]),
{
    let result = put_member(members, key, value);
    if has_key(members, key) {
        let at = index_of_key(members, key);
        assert(result[at].0 == key);
        assert forall|i: int, j: int| 0 <= i < j < result.len() implies (#[trigger] result[i]).0 != (
        #[trigger] result[j]).0 by {
            assert(members[i].0 != members[j].0);
        }
    } else {
        assert(result[members.len() as int].0 == key);
        assert forall|i: int, j: int| 0 <= i < j < result.len() implies (#[trigger] result[i]).0 != (
        #[trigger] result[j]).0 by {
            if j < members.len() {
                assert(members[i].0 != members[j].0);
            } else {
                assert(members[i].0 != key);
            }
        }
    }
}

/// A run of assignments builds an object without a repeated key, and every
/// member of it is one of the assignments.
pub proof fn lemma_collect_members(pairs: Seq<(Seq<char>, Human)>)
    ensures
        distinct_keys(collect_members(pairs)),
        forall|i: int|
            0 <= i < collect_members(pairs).len() ==> exists|j: int|
                0 <= j < pairs.len() && pairs[j] == #[trigger] collect_members(pairs)[i],
    decreases pairs.len(),
{
    if pairs.len() > 0 {
        let before = collect_members(pairs.drop_last());
        lemma_collect_members(pairs.drop_last());
        lemma_put_member(before, pairs.last().0, pairs.last().1);
        let result = collect_members(pairs);
        assert forall|i: int| 0 <= i < result.len() implies exists|j: int|
            0 <= j < pairs.len() && pairs[j] == #[trigger] result[i] by {
            if result[i] == (pairs.last().0, pairs.last().1) {
                assert(pairs[pairs.len() - 1] == result[i]);
            } else {
                assert(before[i] == result[i]);
                let j = choose|j: int| 0 <= j < pairs.drop_last().len() && pairs.drop_last()[j] == before[i];
                assert(pairs[j] == result[i]);
            }
        }
    }
}

/// Assignments of distinct keys build the object that lists them in order.
pub proof fn lemma_collect_distinct(pairs: Seq<(Seq<char>, Human)>)
    requires
        distinct_keys(pairs),
    ensures
        collect_members(pairs) == pairs,
    decreases pairs.len(),
{
    if pairs.len() > 0 {
        let front = pairs.drop_last();
        assert(distinct_keys(front)) by {
            assert forall|i: int, j: int| 0 <= i < j < front.len() implies (#[trigger] front[i]).0 != (
            #[trigger] front[j]).0 by {
                assert(pairs[i].0 != pairs[j].0);
            }
        }
        lemma_collect_distinct(front);
        assert(!has_key(front, pairs.last().0)) by {
            if has_key(front, pairs.last().0) {
                let i = index_of_key(front, pairs.last().0);
                assert(pairs[i].0 != pairs[pairs.len() - 1].0);
            }
        }
        assert(front.push((pairs.last().0, pairs.last().1)) =~= pairs);
    } else {
        assert(pairs =~= Seq::empty());
    }
}

/// Assigns a value to a key of an object under construction: the member
/// with that key gets the value and keeps its place; a new key goes to the
/// end.
pub fn put_member_value(members: &mut Vec<(String, HumanValue)>, key: String, value: HumanValue)
    requires
        distinct_keys(member_models(old(members)@)),
    ensures
        member_models(final(members)@) == put_member(member_models(old(members)@), key@, value@),
        distinct_keys(member_models(final(members)@)),
{
    let ghost before = member_models(members@);
    proof {
        lemma_put_member(before, key@, value@);
    }
    let mut i: usize = 0;
    while i < members.len()
        invariant
            i <= members.len(),
            members@ == old(members)@,
            before == member_models(members@),
            distinct_keys(before),
            distinct_keys(put_member(before, key@, value@)),
            forall|j: int| 0 <= j < i ==> (#[trigger] before[j]).0 != key@,
        decreases members.len() - i,
    {
        if members[i].0 == key {
            proof {
                assert(before[i as int].0 == key@);
                let at = index_of_key(before, key@);
                if at != i {
                    if at < i {
                        assert(before[at].0 != before[i as int].0);
                    } else {
                        assert(before[i as int].0 != before[at].0);
                    }
                }
            }
            members.set(i, (key, value));
            proof {
                assert(member_models(members@) =~= put_member(before, key@, value@));
            }
            return ;
        }
        i += 1;
    }
    proof {
        assert(!has_key(before, key@));
    }
    members.push((key, value));
    proof {
        assert(member_models(members@) =~= put_member(before, key@, value@));
    }
}

} // verus!
