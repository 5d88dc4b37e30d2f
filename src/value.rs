//! The value model: one node of a decoded trace document.
use vstd::prelude::*;

use crate::bigint::BigInt;
use crate::wire::{same_value, value_same};

verus! {

/// The kind of a value, or of what a decoder asked for.
#[derive(Clone, Copy, Debug, PartialEq, Eq)]
pub enum Type {
    Bool,
    Number,
    String,
    BigInt,
    List,
    Record,
    Tuple,
    ItfSet,
    ItfMap,
    Unserializable,
    Char,
    Enum,
}

/// One node of a trace document.
#[derive(Debug, PartialEq, Eq)]
pub enum Value {
    /// `true` or `false`.
    Bool(bool),
    /// An integer literal in the signed 64-bit range.
    Number(i64),
    /// A string literal.
    String(String),
    /// `{"#bigint": "<sign><digits>"}`.
    BigInt(BigInt),
    /// A JSON array.
    List(Vec<Value>),
    /// `{"#tup": [...]}`.
    Tuple(Tuple),
    /// `{"#set": [...]}`.
    ItfSet(ItfSet),
    /// `{"#map": [[key, value], ...]}`, keys of any kind.
    ItfMap(ItfMap),
    /// Any other JSON object, keyed by field names.
    Record(Record),
    /// `{"#unserializable": "<text>"}`.
    Unserializable(Unserializable),
}

/// A tuple: an ordered sequence of fixed arity.
#[derive(Debug, PartialEq, Eq)]
pub struct Tuple {
    pub elements: Vec<Value>,
}

/// A set: a sequence whose order carries no meaning.
#[derive(Debug, PartialEq, Eq)]
pub struct ItfSet {
    pub elements: Vec<Value>,
}

/// A map: key and value pairs in order, keys of any kind.
#[derive(Debug, PartialEq, Eq)]
pub struct ItfMap {
    pub entries: Vec<(Value, Value)>,
}

/// A record: named fields.
#[derive(Debug, PartialEq, Eq)]
pub struct Record {
    pub fields: Vec<(String, Value)>,
}

/// A value that the producer could not write out, by its description.
#[derive(Debug, PartialEq, Eq)]
pub struct Unserializable {
    pub repr: String,
}

/// Whether two texts hold the same characters.
pub fn same_text(a: &str, b: &str) -> (r: bool)
    ensures
        r == (a@ == b@),
{
    let n = a.unicode_len();
    if n != b.unicode_len() {
        return false;
    }
    let mut i: usize = 0;
    while i < n
        invariant
            n == a@.len(),
            n == b@.len(),
            i <= n,
            forall|j: int| 0 <= j < i ==> a@[j] == b@[j],
        decreases n - i,
    {
        if a.get_char(i) != b.get_char(i) {
            return false;
        }
        i = i + 1;
    }
    assert(a@ =~= b@);
    true
}

/// Holds when field `i` is the first one named `key`.
pub open spec fn is_first_key(fields: Seq<(String, Value)>, key: Seq<char>, i: int) -> bool {
    &&& 0 <= i < fields.len()
    &&& fields[i].0@ == key
    &&& forall|j: int| 0 <= j < i ==> fields[j].0@ != key
}

/// Holds when some field is named `key`.
pub open spec fn has_key(fields: Seq<(String, Value)>, key: Seq<char>) -> bool {
    exists|i: int| 0 <= i < fields.len() && fields[i].0@ == key
}

/// The position of the first field named `key`, if any.
fn find_key(fields: &Vec<(String, Value)>, key: &str) -> (r: Option<usize>)
    ensures
        r is None <==> !has_key(fields@, key@),
        r matches Some(i) ==> is_first_key(fields@, key@, i as int),
{
    let mut i: usize = 0;
    while i < fields.len()
        invariant
            i <= fields@.len(),
            forall|j: int| 0 <= j < i ==> fields@[j].0@ != key@,
        decreases fields@.len() - i,
    {
        if same_text(fields[i].0.as_str(), key) {
            return Some(i);
        }
        i = i + 1;
    }
    None
}

impl Record {
    /// A record without fields.
    pub fn new() -> (r: Record)
        ensures
            r.fields@.len() == 0,
    {
        Record { fields: Vec::new() }
    }

    /// Sets field `key` to `value`: the first field of that name takes the value,
    /// which gives back the old one; a record without the name gains it at the end.
    pub fn insert(&mut self, key: String, value: Value) -> (r: Option<Value>)
        ensures
            match r {
                Some(old_value) => exists|i: int|
                    is_first_key(old(self).fields@, key@, i) && old_value == old(
                        self,
                    ).fields@[i].1 && final(self).fields@ == old(self).fields@.update(
                        i,
                        (old(self).fields@[i].0, value),
                    ),
                None => !has_key(old(self).fields@, key@) && final(self).fields@ == old(
                    self,
                ).fields@.push((key, value)),
            },
    {
        match find_key(&self.fields, key.as_str()) {
            Some(i) => {
                let name = self.fields[i].0.clone();
                let entry = (name, value);
                let ghost before = self.fields@;
                let (_, old_value) = self.fields.remove(i);
                self.fields.insert(i, entry);
                proof {
                    assert(self.fields@ =~= before.update(i as int, (before[i as int].0, value)));
                }
                Some(old_value)
            },
            None => {
                self.fields.push((key, value));
                None
            },
        }
    }

    /// Removes the first field named `key` and gives back its value.
    pub fn remove(&mut self, key: &str) -> (r: Option<Value>)
        ensures
            match r {
                Some(v) => exists|i: int|
                    is_first_key(old(self).fields@, key@, i) && v == old(self).fields@[i].1
                        && final(self).fields@ == old(self).fields@.remove(i),
                None => !has_key(old(self).fields@, key@) && final(self).fields@ == old(
                    self,
                ).fields@,
            },
    {
        match find_key(&self.fields, key) {
            Some(i) => {
                let (_, v) = self.fields.remove(i);
                Some(v)
            },
            None => None,
        }
    }

    /// The value of the first field named `key`.
    pub fn get(&self, key: &str) -> (r: Option<&Value>)
        ensures
            match r {
                Some(v) => exists|i: int|
                    is_first_key(self.fields@, key@, i) && *v == self.fields@[i].1,
                None => !has_key(self.fields@, key@),
            },
    {
        match find_key(&self.fields, key) {
            Some(i) => Some(&self.fields[i].1),
            None => None,
        }
    }

    /// Whether some field is named `key`.
    pub fn contains_key(&self, key: &str) -> (r: bool)
        ensures
            r == has_key(self.fields@, key@),
    {
        find_key(&self.fields, key).is_some()
    }

    /// Whether the record has no field.
    pub fn is_empty(&self) -> (r: bool)
        ensures
            r == (self.fields@.len() == 0),
    {
        self.fields.len() == 0
    }

    /// The number of fields.
    pub fn len(&self) -> (r: usize)
        ensures
            r == self.fields@.len(),
    {
        self.fields.len()
    }

    /// The fields.
    pub fn iter(&self) -> (r: &[(String, Value)])
        ensures
            r@ == self.fields@,
    {
        self.fields.as_slice()
    }
}

impl Tuple {
    /// The empty tuple.
    pub fn new() -> (r: Tuple)
        ensures
            r.elements@.len() == 0,
    {
        Tuple { elements: Vec::new() }
    }

    /// The arity.
    pub fn len(&self) -> (r: usize)
        ensures
            r == self.elements@.len(),
    {
        self.elements.len()
    }

    /// Whether the arity is zero.
    pub fn is_empty(&self) -> (r: bool)
        ensures
            r == (self.elements@.len() == 0),
    {
        self.elements.len() == 0
    }

    /// The elements in order.
    pub fn as_slice(&self) -> (r: &[Value])
        ensures
            r@ == self.elements@,
    {
        self.elements.as_slice()
    }

    /// The elements in order.
    pub fn iter(&self) -> (r: &[Value])
        ensures
            r@ == self.elements@,
    {
        self.elements.as_slice()
    }
}

/// Holds when some element of `s` is the same value as `v`.
pub open spec fn set_contains(s: Seq<Value>, v: Value) -> bool {
    exists|i: int| 0 <= i < s.len() && value_same(#[trigger] s[i], v)
}

/// Holds of the values that are not the same value as `v`.
pub open spec fn unlike(v: Value) -> spec_fn(Value) -> bool {
    |x: Value| !value_same(x, v)
}

impl ItfSet {
    /// The empty set.
    pub fn new() -> (r: ItfSet)
        ensures
            r.elements@.len() == 0,
    {
        ItfSet { elements: Vec::new() }
    }

    /// The number of elements written.
    pub fn len(&self) -> (r: usize)
        ensures
            r == self.elements@.len(),
    {
        self.elements.len()
    }

    /// Whether no element is written.
    pub fn is_empty(&self) -> (r: bool)
        ensures
            r == (self.elements@.len() == 0),
    {
        self.elements.len() == 0
    }

    /// Whether some element is the same value as `value`.
    pub fn contains(&self, value: &Value) -> (r: bool)
        ensures
            r == set_contains(self.elements@, *value),
    {
        let mut i: usize = 0;
        while i < self.elements.len()
            invariant
                i <= self.elements@.len(),
                forall|k: int| 0 <= k < i ==> !value_same(#[trigger] self.elements@[k], *value),
            decreases self.elements@.len() - i,
        {
            if same_value(&self.elements[i], value) {
                return true;
            }
            i = i + 1;
        }
        false
    }

    /// Adds `value` unless the same value is there already; tells whether it
    /// was added.
    pub fn insert(&mut self, value: Value) -> (r: bool)
        ensures
            r == !set_contains(old(self).elements@, value),
            r ==> final(self).elements@ == old(self).elements@.push(value),
            !r ==> final(self).elements@ == old(self).elements@,
    {
        if self.contains(&value) {
            false
        } else {
            self.elements.push(value);
            true
        }
    }

    /// Removes every element that is the same value as `value`; tells whether
    /// there was one.
    pub fn remove(&mut self, value: &Value) -> (r: bool)
        ensures
            r == set_contains(old(self).elements@, *value),
            final(self).elements@ == old(self).elements@.filter(unlike(*value)),
    {
        let found = self.contains(value);
        let ghost es = self.elements@;
        let mut rest = Vec::new();
        std::mem::swap(&mut rest, &mut self.elements);
        let mut taken: usize = 0;
        let total = rest.len();
        let mut kept: Vec<Value> = Vec::new();
        while rest.len() > 0
            invariant
                es.len() == total,
                taken + rest@.len() == es.len(),
                rest@ == es.skip(taken as int),
                kept@ == es.take(taken as int).filter(unlike(*value)),
            decreases rest@.len(),
        {
            let x = rest.remove(0);
            proof {
                assert(x == es[taken as int]);
                assert(es.take(taken + 1).drop_last() =~= es.take(taken as int));
                assert(es.take(taken + 1).last() == es[taken as int]);
                reveal(Seq::filter);
            }
            if same_value(&x, value) {
                assert(!unlike(*value)(x));
            } else {
                assert(unlike(*value)(x));
                kept.push(x);
            }
            taken = taken + 1;
            assert(rest@ =~= es.skip(taken as int));
        }
        assert(es.take(taken as int) =~= es);
        self.elements = kept;
        found
    }

    /// The elements.
    pub fn as_slice(&self) -> (r: &[Value])
        ensures
            r@ == self.elements@,
    {
        self.elements.as_slice()
    }

    /// The elements.
    pub fn iter(&self) -> (r: &[Value])
        ensures
            r@ == self.elements@,
    {
        self.elements.as_slice()
    }
}

impl ItfMap {
    /// The empty map.
    pub fn new() -> (r: ItfMap)
        ensures
            r.entries@.len() == 0,
    {
        ItfMap { entries: Vec::new() }
    }

    /// The number of pairs.
    pub fn len(&self) -> (r: usize)
        ensures
            r == self.entries@.len(),
    {
        self.entries.len()
    }

    /// Whether there is no pair.
    pub fn is_empty(&self) -> (r: bool)
        ensures
            r == (self.entries@.len() == 0),
    {
        self.entries.len() == 0
    }

    /// Adds a pair at the end.
    pub fn insert(&mut self, key: Value, value: Value)
        ensures
            final(self).entries@ == old(self).entries@.push((key, value)),
    {
        self.entries.push((key, value));
    }

    /// The pairs.
    pub fn as_slice(&self) -> (r: &[(Value, Value)])
        ensures
            r@ == self.entries@,
    {
        self.entries.as_slice()
    }

    /// The pairs.
    pub fn iter(&self) -> (r: &[(Value, Value)])
        ensures
            r@ == self.entries@,
    {
        self.entries.as_slice()
    }
}

impl Unserializable {
    /// The marker for a value described by `repr`.
    pub fn new(repr: String) -> (r: Unserializable)
        ensures
            r.repr == repr,
    {
        Unserializable { repr }
    }

    /// The description.
    pub fn as_str(&self) -> (r: &str)
        ensures
            r@ == self.repr@,
    {
        self.repr.as_str()
    }
}

/// The kind of a value.
pub open spec fn type_of(v: Value) -> Type {
    match v {
        Value::Bool(_) => Type::Bool,
        Value::Number(_) => Type::Number,
        Value::String(_) => Type::String,
        Value::BigInt(_) => Type::BigInt,
        Value::List(_) => Type::List,
        Value::Tuple(_) => Type::Tuple,
        Value::ItfSet(_) => Type::ItfSet,
        Value::ItfMap(_) => Type::ItfMap,
        Value::Record(_) => Type::Record,
        Value::Unserializable(_) => Type::Unserializable,
    }
}

impl Value {
    /// The kind of the value.
    pub fn value_type(&self) -> (r: Type)
        ensures
            r == type_of(*self),
    {
        match self {
            Value::Bool(_) => Type::Bool,
            Value::Number(_) => Type::Number,
            Value::String(_) => Type::String,
            Value::BigInt(_) => Type::BigInt,
            Value::List(_) => Type::List,
            Value::Tuple(_) => Type::Tuple,
            Value::ItfSet(_) => Type::ItfSet,
            Value::ItfMap(_) => Type::ItfMap,
            Value::Record(_) => Type::Record,
            Value::Unserializable(_) => Type::Unserializable,
        }
    }

    /// The number, when the value is a number literal.
    pub fn as_int(&self) -> (r: Option<i64>)
        ensures
            r == (match *self {
                Value::Number(n) => Some(n),
                _ => None::<i64>,
            }),
    {
        match self {
            Value::Number(n) => Some(*n),
            _ => None,
        }
    }

    /// The big integer, when the value is one.
    pub fn as_big_int(&self) -> (r: Option<&BigInt>)
        ensures
            r == (match *self {
                Value::BigInt(b) => Some(&b),
                _ => None::<&BigInt>,
            }),
    {
        match self {
            Value::BigInt(b) => Some(b),
            _ => None,
        }
    }

    /// The truth value, when the value is one.
    pub fn as_boolean(&self) -> (r: Option<bool>)
        ensures
            r == (match *self {
                Value::Bool(b) => Some(b),
                _ => None::<bool>,
            }),
    {
        match self {
            Value::Bool(b) => Some(*b),
            _ => None,
        }
    }

    /// The text, when the value is a string.
    pub fn as_string(&self) -> (r: Option<&str>)
        ensures
            r is Some <==> *self is String,
            r matches Some(s) ==> *self matches Value::String(t) && s@ == t@,
    {
        match self {
            Value::String(s) => Some(s.as_str()),
            _ => None,
        }
    }

    /// The map, when the value is one.
    pub fn as_map(&self) -> (r: Option<&ItfMap>)
        ensures
            r == (match *self {
                Value::ItfMap(m) => Some(&m),
                _ => None::<&ItfMap>,
            }),
    {
        match self {
            Value::ItfMap(m) => Some(m),
            _ => None,
        }
    }

    /// The set, when the value is one.
    pub fn as_set(&self) -> (r: Option<&ItfSet>)
        ensures
            r == (match *self {
                Value::ItfSet(s) => Some(&s),
                _ => None::<&ItfSet>,
            }),
    {
        match self {
            Value::ItfSet(s) => Some(s),
            _ => None,
        }
    }

    /// The elements, when the value is a list.
    pub fn as_list(&self) -> (r: Option<&[Value]>)
        ensures
            r is Some <==> *self is List,
            r matches Some(s) ==> *self matches Value::List(l) && s@ == l@,
    {
        match self {
            Value::List(l) => Some(l.as_slice()),
            _ => None,
        }
    }

    /// The tuple, when the value is one.
    pub fn as_tuple(&self) -> (r: Option<&Tuple>)
        ensures
            r == (match *self {
                Value::Tuple(t) => Some(&t),
                _ => None::<&Tuple>,
            }),
    {
        match self {
            Value::Tuple(t) => Some(t),
            _ => None,
        }
    }

    /// The record, when the value is one.
    pub fn as_record(&self) -> (r: Option<&Record>)
        ensures
            r == (match *self {
                Value::Record(t) => Some(&t),
                _ => None::<&Record>,
            }),
    {
        match self {
            Value::Record(t) => Some(t),
            _ => None,
        }
    }

    /// The marker, when the value is one that could not be written out.
    pub fn as_unserializable(&self) -> (r: Option<&Unserializable>)
        ensures
            r == (match *self {
                Value::Unserializable(u) => Some(&u),
                _ => None::<&Unserializable>,
            }),
    {
        match self {
            Value::Unserializable(u) => Some(u),
            _ => None,
        }
    }

    /// The number, or the value itself when it is no number literal.
    pub fn try_into_int(self) -> (r: Result<i64, Value>)
        ensures
            r == (match self {
                Value::Number(n) => Ok(n),
                _ => Err::<i64, Value>(self),
            }),
    {
        match self {
            Value::Number(n) => Ok(n),
            v => Err(v),
        }
    }

    /// The big integer, or the value itself when it is none.
    pub fn try_into_big_int(self) -> (r: Result<BigInt, Value>)
        ensures
            r == (match self {
                Value::BigInt(b) => Ok(b),
                _ => Err::<BigInt, Value>(self),
            }),
    {
        match self {
            Value::BigInt(b) => Ok(b),
            v => Err(v),
        }
    }

    /// The truth value, or the value itself when it is none.
    pub fn try_into_boolean(self) -> (r: Result<bool, Value>)
        ensures
            r == (match self {
                Value::Bool(b) => Ok(b),
                _ => Err::<bool, Value>(self),
            }),
    {
        match self {
            Value::Bool(b) => Ok(b),
            v => Err(v),
        }
    }

    /// The text, or the value itself when it is no string.
    pub fn try_into_string(self) -> (r: Result<String, Value>)
        ensures
            r == (match self {
                Value::String(s) => Ok(s),
                _ => Err::<String, Value>(self),
            }),
    {
        match self {
            Value::String(s) => Ok(s),
            v => Err(v),
        }
    }

    /// The map, or the value itself when it is none.
    pub fn try_into_map(self) -> (r: Result<ItfMap, Value>)
        ensures
            r == (match self {
                Value::ItfMap(m) => Ok(m),
                _ => Err::<ItfMap, Value>(self),
            }),
    {
        match self {
            Value::ItfMap(m) => Ok(m),
            v => Err(v),
        }
    }

    /// The set, or the value itself when it is none.
    pub fn try_into_set(self) -> (r: Result<ItfSet, Value>)
        ensures
            r == (match self {
                Value::ItfSet(s) => Ok(s),
                _ => Err::<ItfSet, Value>(self),
            }),
    {
        match self {
            Value::ItfSet(s) => Ok(s),
            v => Err(v),
        }
    }

    /// The elements, or the value itself when it is no list.
    pub fn try_into_list(self) -> (r: Result<Vec<Value>, Value>)
        ensures
            r == (match self {
                Value::List(l) => Ok(l),
                _ => Err::<Vec<Value>, Value>(self),
            }),
    {
        match self {
            Value::List(l) => Ok(l),
            v => Err(v),
        }
    }

    /// The tuple, or the value itself when it is none.
    pub fn try_into_tuple(self) -> (r: Result<Tuple, Value>)
        ensures
            r == (match self {
                Value::Tuple(t) => Ok(t),
                _ => Err::<Tuple, Value>(self),
            }),
    {
        match self {
            Value::Tuple(t) => Ok(t),
            v => Err(v),
        }
    }

    /// The record, or the value itself when it is none.
    pub fn try_into_record(self) -> (r: Result<Record, Value>)
        ensures
            r == (match self {
                Value::Record(t) => Ok(t),
                _ => Err::<Record, Value>(self),
            }),
    {
        match self {
            Value::Record(t) => Ok(t),
            v => Err(v),
        }
    }

    /// The marker, or the value itself when it is none.
    pub fn try_into_unserializable(self) -> (r: Result<Unserializable, Value>)
        ensures
            r == (match self {
                Value::Unserializable(u) => Ok(u),
                _ => Err::<Unserializable, Value>(self),
            }),
    {
        match self {
            Value::Unserializable(u) => Ok(u),
            v => Err(v),
        }
    }

    /// Whether the value is a number literal.
    pub fn is_int(&self) -> (r: bool)
        ensures
            r == (*self is Number),
    {
        matches!(self, Value::Number(_))
    }

    /// Whether the value is a big integer.
    pub fn is_big_int(&self) -> (r: bool)
        ensures
            r == (*self is BigInt),
    {
        matches!(self, Value::BigInt(_))
    }

    /// Whether the value is a truth value.
    pub fn is_boolean(&self) -> (r: bool)
        ensures
            r == (*self is Bool),
    {
        matches!(self, Value::Bool(_))
    }

    /// Whether the value is a string.
    pub fn is_string(&self) -> (r: bool)
        ensures
            r == (*self is String),
    {
        matches!(self, Value::String(_))
    }

    /// Whether the value is a map.
    pub fn is_map(&self) -> (r: bool)
        ensures
            r == (*self is ItfMap),
    {
        matches!(self, Value::ItfMap(_))
    }

    /// Whether the value is a set.
    pub fn is_set(&self) -> (r: bool)
        ensures
            r == (*self is ItfSet),
    {
        matches!(self, Value::ItfSet(_))
    }

    /// Whether the value is a list.
    pub fn is_list(&self) -> (r: bool)
        ensures
            r == (*self is List),
    {
        matches!(self, Value::List(_))
    }

    /// Whether the value is a tuple.
    pub fn is_tuple(&self) -> (r: bool)
        ensures
            r == (*self is Tuple),
    {
        matches!(self, Value::Tuple(_))
    }

    /// Whether the value is a record.
    pub fn is_record(&self) -> (r: bool)
        ensures
            r == (*self is Record),
    {
        matches!(self, Value::Record(_))
    }

    /// Whether the value is one that could not be written out.
    pub fn is_unserializable(&self) -> (r: bool)
        ensures
            r == (*self is Unserializable),
    {
        matches!(self, Value::Unserializable(_))
    }
}

} // verus!
