//! The decode engine: from a value to a value of a chosen Rust type.
//!
//! Each target type states, as `decodes`, which outcome decoding a value has:
//! the decoded value, or the first mismatch met, depth first, in order.
use vstd::prelude::*;

use crate::bigint::{int_decimal, limbs_value, BigInt};
use crate::value::{has_key, is_first_key, same_text, type_of, ItfSet, Record, Tuple, Type, Value};
use crate::wire::{
    encodes, is_wire_ready, lemma_wire_round_trip, same_value, valid_wire, value_same, value_to_json,
    wire_ready, Json,
};

verus! {

/// Why a value could not be decoded.
#[derive(Debug, PartialEq, Eq)]
pub enum DecodeError {
    /// The value is of another kind than the target asks for.
    InvalidType { expected: Type, found: Type },
    /// A record lacks a field that the target requires.
    FieldNotFound(String),
    /// A record names a field that the target reads more than once.
    DuplicateField(String),
    /// A tagged record lacks its discriminator field.
    UnknownTag(String),
    /// A discriminator names no variant of the target.
    UnknownVariant(String),
    /// A value that the producer could not write out reached a typed target.
    UnsupportedType,
    /// An integer lies outside the range of the target.
    Range,
    /// A sequence has another length than the fixed-size target.
    Arity { expected: usize, found: usize },
    /// A target rejected the value by a rule of its own.
    Custom(String),
}

/// The name of a kind in messages.
pub open spec fn kind_name(t: Type) -> Seq<char> {
    match t {
        Type::Bool => "bool"@,
        Type::Number => "number"@,
        Type::String => "string"@,
        Type::BigInt => "bigint"@,
        Type::List => "list"@,
        Type::Record => "record"@,
        Type::Tuple => "tuple"@,
        Type::ItfSet => "set"@,
        Type::ItfMap => "map"@,
        Type::Unserializable => "unserializable"@,
        Type::Char => "char"@,
        Type::Enum => "enum"@,
    }
}

impl Type {
    /// The name of the kind in messages.
    pub fn name(&self) -> (r: &'static str)
        ensures
            r@ == kind_name(*self),
    {
        match self {
            Type::Bool => "bool",
            Type::Number => "number",
            Type::String => "string",
            Type::BigInt => "bigint",
            Type::List => "list",
            Type::Record => "record",
            Type::Tuple => "tuple",
            Type::ItfSet => "set",
            Type::ItfMap => "map",
            Type::Unserializable => "unserializable",
            Type::Char => "char",
            Type::Enum => "enum",
        }
    }
}

/// The text that describes an error.
pub open spec fn message_of(e: DecodeError) -> Seq<char> {
    match e {
        DecodeError::InvalidType { expected, found } => "invalid type: expected "@ + kind_name(
            expected,
        ) + ", found "@ + kind_name(found),
        DecodeError::FieldNotFound(s) => "field not found: "@ + s@,
        DecodeError::DuplicateField(s) => "duplicate field: "@ + s@,
        DecodeError::UnknownTag(s) => "unknown tag: "@ + s@,
        DecodeError::UnknownVariant(s) => "unknown variant: "@ + s@,
        DecodeError::UnsupportedType => "unsupported type: unserializable"@,
        DecodeError::Range => "integer out of range"@,
        DecodeError::Arity { expected, found } => "expected tuple with "@ + int_decimal(expected as int)
            + " elements but found "@ + int_decimal(found as int),
        DecodeError::Custom(s) => s@,
    }
}

impl DecodeError {
    /// The text that describes the error.
    pub fn message(&self) -> (r: String)
        ensures
            r@ == message_of(*self),
    {
        match self {
            DecodeError::InvalidType { expected, found } => String::from_str(
                "invalid type: expected ",
            ).concat(expected.name()).concat(", found ").concat(found.name()),
            DecodeError::FieldNotFound(s) => String::from_str("field not found: ").concat(
                s.as_str(),
            ),
            DecodeError::DuplicateField(s) => String::from_str("duplicate field: ").concat(
                s.as_str(),
            ),
            DecodeError::UnknownTag(s) => String::from_str("unknown tag: ").concat(s.as_str()),
            DecodeError::UnknownVariant(s) => String::from_str("unknown variant: ").concat(
                s.as_str(),
            ),
            DecodeError::UnsupportedType => String::from_str("unsupported type: unserializable"),
            DecodeError::Range => String::from_str("integer out of range"),
            DecodeError::Arity { expected, found } => {
                let e = BigInt::from_u64(*expected as u64).to_string();
                let f = BigInt::from_u64(*found as u64).to_string();
                String::from_str("expected tuple with ").concat(e.as_str()).concat(
                    " elements but found ",
                ).concat(f.as_str())
            },
            DecodeError::Custom(s) => s.clone(),
        }
    }
}

/// The error for a value of the wrong kind.
pub open spec fn mismatch(expected: Type, v: Value) -> DecodeError {
    if v is Unserializable {
        DecodeError::UnsupportedType
    } else {
        DecodeError::InvalidType { expected, found: type_of(v) }
    }
}

/// The error for a value of the wrong kind.
pub fn mismatch_error(expected: Type, v: &Value) -> (e: DecodeError)
    ensures
        e == mismatch(expected, *v),
{
    match v {
        Value::Unserializable(_) => DecodeError::UnsupportedType,
        _ => DecodeError::InvalidType { expected, found: v.value_type() },
    }
}

/// A type that values can be decoded into.
pub trait DecodeItfValue: Sized {
    /// Holds when `r` is the outcome of decoding `value`. Every target of this
    /// library states it; a target written elsewhere may leave it open.
    open spec fn decodes(value: Value, r: Result<Self, DecodeError>) -> bool {
        true
    }

    /// Decodes `value`.
    fn decode(value: Value) -> (r: Result<Self, DecodeError>)
        ensures
            Self::decodes(value, r),
    ;
}

/// Decodes `value` into a `T`. The contract is the one that `T` states as
/// `decodes`; a target type that does not state it gets no contract here.
pub fn decode_value<T: DecodeItfValue>(value: Value) -> (r: Result<T, DecodeError>)
    ensures
        T::decodes(value, r),
{
    T::decode(value)
}

impl DecodeItfValue for Value {
    /// A value decodes into itself.
    open spec fn decodes(value: Value, r: Result<Value, DecodeError>) -> bool {
        r == Ok::<Value, DecodeError>(value)
    }

    fn decode(value: Value) -> (r: Result<Value, DecodeError>) {
        Ok(value)
    }
}

impl DecodeItfValue for Json {
    /// A value decodes into its wire form, when it has one.
    open spec fn decodes(value: Value, r: Result<Json, DecodeError>) -> bool {
        if wire_ready(value) {
            r matches Ok(j) && encodes(value, j)
        } else {
            r matches Err(DecodeError::Custom(_))
        }
    }

    fn decode(value: Value) -> (r: Result<Json, DecodeError>) {
        if is_wire_ready(&value) {
            Ok(value_to_json(&value))
        } else {
            Err(DecodeError::Custom(String::from_str("a record field name begins with #")))
        }
    }
}

/// A target that accepts any value and keeps nothing of it.
#[derive(Clone, Copy, Debug, PartialEq, Eq)]
pub struct Ignored;

impl DecodeItfValue for Ignored {
    open spec fn decodes(value: Value, r: Result<Ignored, DecodeError>) -> bool {
        r == Ok::<Ignored, DecodeError>(Ignored)
    }

    fn decode(value: Value) -> (r: Result<Ignored, DecodeError>) {
        Ok(Ignored)
    }
}

impl DecodeItfValue for bool {
    open spec fn decodes(value: Value, r: Result<bool, DecodeError>) -> bool {
        r == match value {
            Value::Bool(b) => Ok(b),
            _ => Err(mismatch(Type::Bool, value)),
        }
    }

    fn decode(value: Value) -> (r: Result<bool, DecodeError>) {
        match value {
            Value::Bool(b) => Ok(b),
            v => Err(mismatch_error(Type::Bool, &v)),
        }
    }
}

impl DecodeItfValue for String {
    open spec fn decodes(value: Value, r: Result<String, DecodeError>) -> bool {
        r == match value {
            Value::String(s) => Ok(s),
            _ => Err(mismatch(Type::String, value)),
        }
    }

    fn decode(value: Value) -> (r: Result<String, DecodeError>) {
        match value {
            Value::String(s) => Ok(s),
            v => Err(mismatch_error(Type::String, &v)),
        }
    }
}

impl DecodeItfValue for char {
    /// A string of exactly one character.
    open spec fn decodes(value: Value, r: Result<char, DecodeError>) -> bool {
        r == match value {
            Value::String(s) => if s@.len() == 1 {
                Ok(s@[0])
            } else {
                Err(mismatch(Type::Char, value))
            },
            _ => Err(mismatch(Type::Char, value)),
        }
    }

    fn decode(value: Value) -> (r: Result<char, DecodeError>) {
        match value {
            Value::String(s) => {
                if s.as_str().unicode_len() == 1 {
                    Ok(s.as_str().get_char(0))
                } else {
                    Err(mismatch_error(Type::Char, &Value::String(s)))
                }
            },
            v => Err(mismatch_error(Type::Char, &v)),
        }
    }
}

/// The integer that a value writes: a number literal or a big integer.
pub open spec fn integer_of(v: Value) -> Option<int> {
    match v {
        Value::Number(n) => Some(n as int),
        Value::BigInt(b) => Some(b@),
        _ => None,
    }
}

/// The outcome of decoding `v` into integers from `lo` to `hi`, as integers.
pub open spec fn integer_outcome(v: Value, lo: int, hi: int) -> Result<int, DecodeError> {
    match integer_of(v) {
        Some(i) => if lo <= i <= hi {
            Ok(i)
        } else {
            Err(DecodeError::Range)
        },
        None => Err(mismatch(Type::Number, v)),
    }
}

/// The integer that a value writes, lifted to a big integer.
fn integer_value(value: Value) -> (r: Result<BigInt, DecodeError>)
    ensures
        match integer_of(value) {
            Some(i) => r matches Ok(b) && b@ == i,
            None => r == Err::<BigInt, DecodeError>(mismatch(Type::Number, value)),
        },
{
    match value {
        Value::Number(n) => Ok(BigInt::new(n)),
        Value::BigInt(b) => Ok(b),
        v => Err(mismatch_error(Type::Number, &v)),
    }
}

/// Holds when `x` is a number literal that fits a limb.
pub open spec fn is_limb(x: Value) -> bool {
    x matches Value::Number(d) && 0 <= d <= u32::MAX
}

/// The integer of the positional form `[sign, [limb, ...]]`: a sign of -1, 0
/// or 1 and base 2^32 limbs, least significant first.
pub open spec fn positional_of(v: Value) -> Option<int> {
    match v {
        Value::List(l) => if l@.len() == 2 && (l@[0] matches Value::Number(s) && -1 <= s <= 1) && (
        l@[1] matches Value::List(ls) && forall|i: int|
            0 <= i < ls@.len() ==> is_limb(#[trigger] ls@[i])) {
            Some(
                (l@[0]->Number_0 as int) * limbs_value(
                    l@[1]->List_0@.map_values(|x: Value| x->Number_0 as u32),
                ),
            )
        } else {
            None
        },
        _ => None,
    }
}

/// The big integer of the positional form, if `l` holds one.
fn positional(l: &Vec<Value>) -> (r: Option<BigInt>)
    ensures
        match positional_of(Value::List(*l)) {
            Some(i) => r matches Some(b) && b@ == i,
            None => r is None,
        },
{
    if l.len() != 2 {
        return None;
    }
    let sign = match &l[0] {
        Value::Number(s) => {
            if *s < -1 || *s > 1 {
                return None;
            }
            *s
        },
        _ => {
            return None;
        },
    };
    match &l[1] {
        Value::List(ls) => {
            let mut limbs: Vec<u32> = Vec::new();
            let mut i: usize = 0;
            while i < ls.len()
                invariant
                    l@.len() == 2,
                    l@[0] == Value::Number(sign),
                    -1 <= sign <= 1,
                    l@[1] == Value::List(*ls),
                    i <= ls@.len(),
                    limbs@.len() == i,
                    forall|k: int| 0 <= k < i ==> is_limb(#[trigger] ls@[k]),
                    forall|k: int| 0 <= k < i ==> #[trigger] limbs@[k] == ls@[k]->Number_0 as u32,
                decreases ls@.len() - i,
            {
                match &ls[i] {
                    Value::Number(d) => {
                        if *d < 0 || *d > u32::MAX as i64 {
                            assert(!is_limb(ls@[i as int]));
                            return None;
                        }
                        limbs.push(*d as u32);
                    },
                    _ => {
                        assert(!is_limb(ls@[i as int]));
                        return None;
                    },
                }
                i = i + 1;
            }
            assert(limbs@ =~= ls@.map_values(|x: Value| x->Number_0 as u32));
            assert(forall|k: int| 0 <= k < ls@.len() ==> is_limb(#[trigger] ls@[k]));
            assert(positional_of(Value::List(*l)) == Some((sign as int) * limbs_value(limbs@)));
            let ghost magnitude = limbs_value(limbs@);
            let b = if sign == 0 {
                BigInt::new(0)
            } else {
                BigInt::from_sign_limbs(sign < 0, limbs)
            };
            proof {
                if sign == 0 {
                    assert((sign as int) * magnitude == 0) by (nonlinear_arith)
                        requires
                            sign == 0,
                    ;
                } else if sign == 1 {
                    assert((sign as int) * magnitude == magnitude) by (nonlinear_arith)
                        requires
                            sign == 1,
                    ;
                } else {
                    assert((sign as int) * magnitude == -magnitude) by (nonlinear_arith)
                        requires
                            sign == -1,
                    ;
                }
            }
            Some(b)
        },
        _ => None,
    }
}

impl DecodeItfValue for BigInt {
    /// A number literal is lifted without loss; a big integer is taken as it
    /// is; a list `[sign, [limb, ...]]` gives the integer of that positional form.
    open spec fn decodes(value: Value, r: Result<BigInt, DecodeError>) -> bool {
        match integer_of(value) {
            Some(i) => r matches Ok(b) && b@ == i,
            None => match positional_of(value) {
                Some(i) => r matches Ok(b) && b@ == i,
                None => r == Err::<BigInt, DecodeError>(mismatch(Type::BigInt, value)),
            },
        }
    }

    fn decode(value: Value) -> (r: Result<BigInt, DecodeError>) {
        match value {
            Value::Number(n) => Ok(BigInt::new(n)),
            Value::BigInt(b) => Ok(b),
            Value::List(l) => match positional(&l) {
                Some(b) => Ok(b),
                None => Err(mismatch_error(Type::BigInt, &Value::List(l))),
            },
            v => Err(mismatch_error(Type::BigInt, &v)),
        }
    }
}

impl DecodeItfValue for i64 {
    open spec fn decodes(value: Value, r: Result<i64, DecodeError>) -> bool {
        match integer_outcome(value, i64::MIN as int, i64::MAX as int) {
            Ok(i) => r == Ok::<i64, DecodeError>(i as i64),
            Err(e) => r == Err::<i64, DecodeError>(e),
        }
    }

    fn decode(value: Value) -> (r: Result<i64, DecodeError>) {
        let b = integer_value(value)?;
        match b.to_i64() {
            Some(n) => Ok(n),
            None => Err(DecodeError::Range),
        }
    }
}

impl DecodeItfValue for i32 {
    open spec fn decodes(value: Value, r: Result<i32, DecodeError>) -> bool {
        match integer_outcome(value, i32::MIN as int, i32::MAX as int) {
            Ok(i) => r == Ok::<i32, DecodeError>(i as i32),
            Err(e) => r == Err::<i32, DecodeError>(e),
        }
    }

    fn decode(value: Value) -> (r: Result<i32, DecodeError>) {
        let b = integer_value(value)?;
        match b.to_i64() {
            Some(n) => {
                if i32::MIN as i64 <= n && n <= i32::MAX as i64 {
                    Ok(n as i32)
                } else {
                    Err(DecodeError::Range)
                }
            },
            None => Err(DecodeError::Range),
        }
    }
}

impl DecodeItfValue for i16 {
    open spec fn decodes(value: Value, r: Result<i16, DecodeError>) -> bool {
        match integer_outcome(value, i16::MIN as int, i16::MAX as int) {
            Ok(i) => r == Ok::<i16, DecodeError>(i as i16),
            Err(e) => r == Err::<i16, DecodeError>(e),
        }
    }

    fn decode(value: Value) -> (r: Result<i16, DecodeError>) {
        let b = integer_value(value)?;
        match b.to_i64() {
            Some(n) => {
                if i16::MIN as i64 <= n && n <= i16::MAX as i64 {
                    Ok(n as i16)
                } else {
                    Err(DecodeError::Range)
                }
            },
            None => Err(DecodeError::Range),
        }
    }
}

impl DecodeItfValue for i8 {
    open spec fn decodes(value: Value, r: Result<i8, DecodeError>) -> bool {
        match integer_outcome(value, i8::MIN as int, i8::MAX as int) {
            Ok(i) => r == Ok::<i8, DecodeError>(i as i8),
            Err(e) => r == Err::<i8, DecodeError>(e),
        }
    }

    fn decode(value: Value) -> (r: Result<i8, DecodeError>) {
        let b = integer_value(value)?;
        match b.to_i64() {
            Some(n) => {
                if i8::MIN as i64 <= n && n <= i8::MAX as i64 {
                    Ok(n as i8)
                } else {
                    Err(DecodeError::Range)
                }
            },
            None => Err(DecodeError::Range),
        }
    }
}

impl DecodeItfValue for u16 {
    open spec fn decodes(value: Value, r: Result<u16, DecodeError>) -> bool {
        match integer_outcome(value, 0, u16::MAX as int) {
            Ok(i) => r == Ok::<u16, DecodeError>(i as u16),
            Err(e) => r == Err::<u16, DecodeError>(e),
        }
    }

    fn decode(value: Value) -> (r: Result<u16, DecodeError>) {
        let b = integer_value(value)?;
        match b.to_u64() {
            Some(n) => {
                if n <= u16::MAX as u64 {
                    Ok(n as u16)
                } else {
                    Err(DecodeError::Range)
                }
            },
            None => Err(DecodeError::Range),
        }
    }
}

impl DecodeItfValue for u64 {
    open spec fn decodes(value: Value, r: Result<u64, DecodeError>) -> bool {
        match integer_outcome(value, 0, u64::MAX as int) {
            Ok(i) => r == Ok::<u64, DecodeError>(i as u64),
            Err(e) => r == Err::<u64, DecodeError>(e),
        }
    }

    fn decode(value: Value) -> (r: Result<u64, DecodeError>) {
        let b = integer_value(value)?;
        match b.to_u64() {
            Some(n) => Ok(n),
            None => Err(DecodeError::Range),
        }
    }
}

impl DecodeItfValue for u32 {
    open spec fn decodes(value: Value, r: Result<u32, DecodeError>) -> bool {
        match integer_outcome(value, 0, u32::MAX as int) {
            Ok(i) => r == Ok::<u32, DecodeError>(i as u32),
            Err(e) => r == Err::<u32, DecodeError>(e),
        }
    }

    fn decode(value: Value) -> (r: Result<u32, DecodeError>) {
        let b = integer_value(value)?;
        match b.to_u64() {
            Some(n) => {
                if n <= u32::MAX as u64 {
                    Ok(n as u32)
                } else {
                    Err(DecodeError::Range)
                }
            },
            None => Err(DecodeError::Range),
        }
    }
}

impl DecodeItfValue for u8 {
    open spec fn decodes(value: Value, r: Result<u8, DecodeError>) -> bool {
        match integer_outcome(value, 0, u8::MAX as int) {
            Ok(i) => r == Ok::<u8, DecodeError>(i as u8),
            Err(e) => r == Err::<u8, DecodeError>(e),
        }
    }

    fn decode(value: Value) -> (r: Result<u8, DecodeError>) {
        let b = integer_value(value)?;
        match b.to_u64() {
            Some(n) => {
                if n <= u8::MAX as u64 {
                    Ok(n as u8)
                } else {
                    Err(DecodeError::Range)
                }
            },
            None => Err(DecodeError::Range),
        }
    }
}

/// The elements of a list, a tuple or a set.
pub open spec fn elements_of(v: Value) -> Option<Seq<Value>> {
    match v {
        Value::List(l) => Some(l@),
        Value::Tuple(t) => Some(t.elements@),
        Value::ItfSet(s) => Some(s.elements@),
        _ => None,
    }
}

/// The elements of a list, a tuple or a set, or the mismatch for a sequence.
pub fn elements(value: Value, expected: Type) -> (r: Result<Vec<Value>, DecodeError>)
    ensures
        match elements_of(value) {
            Some(xs) => r matches Ok(l) && l@ == xs,
            None => r == Err::<Vec<Value>, DecodeError>(mismatch(expected, value)),
        },
{
    match value {
        Value::List(l) => Ok(l),
        Value::Tuple(t) => Ok(t.elements),
        Value::ItfSet(s) => Ok(s.elements),
        v => Err(mismatch_error(expected, &v)),
    }
}

/// Holds when `v` decodes into some `T`.
pub open spec fn decodes_ok<T: DecodeItfValue>(v: Value) -> bool {
    exists|x: T| T::decodes(v, Ok(x))
}

/// Holds when `r` is the outcome of decoding the values `xs` one by one, in
/// order: all decoded, or the error of the first that fails.
pub open spec fn seq_decodes<T: DecodeItfValue>(
    xs: Seq<Value>,
    r: Result<Vec<T>, DecodeError>,
) -> bool {
    match r {
        Ok(out) => out@.len() == xs.len() && forall|i: int|
            0 <= i < xs.len() ==> T::decodes(#[trigger] xs[i], Ok(out@[i])),
        Err(e) => exists|i: int|
            0 <= i < xs.len() && T::decodes(#[trigger] xs[i], Err(e)) && forall|j: int|
                0 <= j < i ==> decodes_ok::<T>(#[trigger] xs[j]),
    }
}

/// Decodes the values `items` one by one, in order, stopping at the first error.
pub fn decode_all<T: DecodeItfValue>(items: Vec<Value>) -> (r: Result<Vec<T>, DecodeError>)
    ensures
        seq_decodes(items@, r),
{
    let ghost xs = items@;
    let mut rest = items;
    let mut out: Vec<T> = Vec::new();
    while rest.len() > 0
        invariant
            out@.len() <= xs.len(),
            rest@ == xs.skip(out@.len() as int),
            xs == items@,
            forall|k: int| 0 <= k < out@.len() ==> T::decodes(#[trigger] xs[k], Ok(out@[k])),
        decreases rest@.len(),
    {
        let ghost i = out@.len() as int;
        let x = rest.remove(0);
        assert(x == xs[i]);
        match T::decode(x) {
            Ok(y) => {
                out.push(y);
                assert(rest@ =~= xs.skip(out@.len() as int));
            },
            Err(e) => {
                assert forall|j: int| 0 <= j < i implies decodes_ok::<T>(#[trigger] xs[j]) by {
                    assert(T::decodes(xs[j], Ok(out@[j])));
                }
                assert(0 <= i < xs.len() && T::decodes(xs[i], Err(e)));
                assert(seq_decodes::<T>(xs, Err(e)));
                return Err(e);
            },
        }
    }
    assert(out@.len() == xs.len());
    Ok(out)
}

impl<T: DecodeItfValue> DecodeItfValue for Vec<T> {
    /// A list, a tuple or a set, element by element in order.
    open spec fn decodes(value: Value, r: Result<Vec<T>, DecodeError>) -> bool {
        match elements_of(value) {
            Some(xs) => seq_decodes(xs, r),
            None => r == Err::<Vec<T>, DecodeError>(mismatch(Type::List, value)),
        }
    }

    fn decode(value: Value) -> (r: Result<Vec<T>, DecodeError>) {
        let items = elements(value, Type::List)?;
        decode_all(items)
    }
}

impl<T: DecodeItfValue> DecodeItfValue for Option<T> {
    /// There is no absent value on the wire: a value always decodes as present.
    open spec fn decodes(value: Value, r: Result<Option<T>, DecodeError>) -> bool {
        match r {
            Ok(Some(x)) => T::decodes(value, Ok(x)),
            Ok(None) => false,
            Err(e) => T::decodes(value, Err(e)),
        }
    }

    fn decode(value: Value) -> (r: Result<Option<T>, DecodeError>) {
        match T::decode(value) {
            Ok(x) => Ok(Some(x)),
            Err(e) => Err(e),
        }
    }
}

/// The error for a fixed-size target of `n` elements, when `xs` has another length.
pub open spec fn arity_error(n: usize, xs: Seq<Value>) -> DecodeError {
    DecodeError::Arity { expected: n, found: xs.len() as usize }
}

/// Takes the elements of a fixed-size target out of a sequence value.
fn fixed_elements(value: Value, n: usize) -> (r: Result<Vec<Value>, DecodeError>)
    ensures
        match elements_of(value) {
            Some(xs) => if xs.len() == n {
                r matches Ok(l) && l@ == xs
            } else {
                r == Err::<Vec<Value>, DecodeError>(arity_error(n, xs))
            },
            None => r == Err::<Vec<Value>, DecodeError>(mismatch(Type::Tuple, value)),
        },
{
    let items = elements(value, Type::Tuple)?;
    if items.len() != n {
        return Err(DecodeError::Arity { expected: n, found: items.len() });
    }
    Ok(items)
}

/// Relies on std's `TryFrom<Vec<T>> for [T; N]`: when the lengths agree, the
/// array holds the vector's elements in order.
#[verifier::external_body]
fn into_array<T, const N: usize>(v: Vec<T>) -> (r: [T; N])
    requires
        v@.len() == N,
    ensures
        r@ == v@,
{
    let r: Result<[T; N], Vec<T>> = v.try_into();
    r.ok().unwrap()
}

impl<T: DecodeItfValue, const N: usize> DecodeItfValue for [T; N] {
    /// A sequence of exactly `N` values, decoded in order.
    open spec fn decodes(value: Value, r: Result<[T; N], DecodeError>) -> bool {
        match elements_of(value) {
            None => r == Err::<[T; N], DecodeError>(mismatch(Type::Tuple, value)),
            Some(xs) => if xs.len() != N {
                r == Err::<[T; N], DecodeError>(arity_error(N, xs))
            } else {
                match r {
                    Ok(a) => forall|i: int| 0 <= i < N ==> T::decodes(#[trigger] xs[i], Ok(a@[i])),
                    Err(e) => seq_decodes::<T>(xs, Err(e)),
                }
            },
        }
    }

    fn decode(value: Value) -> (r: Result<[T; N], DecodeError>) {
        let items = fixed_elements(value, N)?;
        let out = decode_all::<T>(items)?;
        Ok(into_array(out))
    }
}

impl<A: DecodeItfValue, B: DecodeItfValue> DecodeItfValue for (A, B) {
    /// A sequence of exactly two values, decoded in order.
    open spec fn decodes(value: Value, r: Result<(A, B), DecodeError>) -> bool {
        match elements_of(value) {
            None => r == Err::<(A, B), DecodeError>(mismatch(Type::Tuple, value)),
            Some(xs) => if xs.len() != 2 {
                r == Err::<(A, B), DecodeError>(arity_error(2, xs))
            } else {
                match r {
                    Ok((a, b)) => A::decodes(xs[0], Ok(a)) && B::decodes(xs[1], Ok(b)),
                    Err(e) => A::decodes(xs[0], Err(e)) || (decodes_ok::<A>(xs[0])
                        && B::decodes(xs[1], Err(e))),
                }
            },
        }
    }

    fn decode(value: Value) -> (r: Result<(A, B), DecodeError>) {
        let mut items = fixed_elements(value, 2)?;
        let x0 = items.remove(0);
        let x1 = items.remove(0);
        let a = A::decode(x0)?;
        let b = B::decode(x1)?;
        Ok((a, b))
    }
}

impl<A: DecodeItfValue, B: DecodeItfValue, C: DecodeItfValue> DecodeItfValue for (A, B, C) {
    /// A sequence of exactly three values, decoded in order.
    open spec fn decodes(value: Value, r: Result<(A, B, C), DecodeError>) -> bool {
        match elements_of(value) {
            None => r == Err::<(A, B, C), DecodeError>(mismatch(Type::Tuple, value)),
            Some(xs) => if xs.len() != 3 {
                r == Err::<(A, B, C), DecodeError>(arity_error(3, xs))
            } else {
                match r {
                    Ok((a, b, c)) => A::decodes(xs[0], Ok(a)) && B::decodes(xs[1], Ok(b))
                        && C::decodes(xs[2], Ok(c)),
                    Err(e) => A::decodes(xs[0], Err(e)) || (decodes_ok::<A>(xs[0])
                        && B::decodes(xs[1], Err(e))) || (decodes_ok::<A>(xs[0])
                        && decodes_ok::<B>(xs[1]) && C::decodes(xs[2], Err(e))),
                }
            },
        }
    }

    fn decode(value: Value) -> (r: Result<(A, B, C), DecodeError>) {
        let mut items = fixed_elements(value, 3)?;
        let x0 = items.remove(0);
        let x1 = items.remove(0);
        let x2 = items.remove(0);
        let a = A::decode(x0)?;
        let b = B::decode(x1)?;
        let c = C::decode(x2)?;
        Ok((a, b, c))
    }
}


/// The named fields of a record, or of a map whose keys are all strings.
pub open spec fn fields_of(v: Value) -> Option<Seq<(String, Value)>> {
    match v {
        Value::Record(r) => Some(r.fields@),
        Value::ItfMap(m) => if forall|i: int|
            0 <= i < m.entries@.len() ==> (#[trigger] m.entries@[i]).0 is String {
            Some(m.entries@.map_values(|e: (Value, Value)| (e.0->String_0, e.1)))
        } else {
            None
        },
        _ => None,
    }
}

/// The fields of a record, or of a map whose keys are all strings.
pub fn record_of(value: Value) -> (r: Result<Record, DecodeError>)
    ensures
        match fields_of(value) {
            Some(fs) => r matches Ok(rec) && rec.fields@ == fs,
            None => r == Err::<Record, DecodeError>(mismatch(Type::Record, value)),
        },
{
    let ghost whole = value;
    match value {
        Value::Record(rec) => Ok(rec),
        Value::ItfMap(m) => {
            let ghost es = m.entries@;
            let mut rest = m.entries;
            let mut fields: Vec<(String, Value)> = Vec::new();
            while rest.len() > 0
                invariant
                    whole == value,
                    whole matches Value::ItfMap(mm) && mm.entries@ == es,
                    fields@.len() <= es.len(),
                    rest@ == es.skip(fields@.len() as int),
                    forall|k: int|
                        0 <= k < fields@.len() ==> (#[trigger] es[k]).0 is String
                            && fields@[k] == (es[k].0->String_0, es[k].1),
                decreases rest@.len(),
            {
                let ghost i = fields@.len() as int;
                let (key, v) = rest.remove(0);
                assert((key, v) == es[i]);
                match key {
                    Value::String(name) => {
                        fields.push((name, v));
                        assert(rest@ =~= es.skip(fields@.len() as int));
                    },
                    key => {
                        proof {
                            assert(!(es[i].0 is String));
                            assert(!(forall|k: int|
                                0 <= k < es.len() ==> (#[trigger] es[k]).0 is String));
                        }
                        return Err(DecodeError::InvalidType {
                            expected: Type::Record,
                            found: Type::ItfMap,
                        });
                    },
                }
            }
            assert(fields@ =~= es.map_values(|e: (Value, Value)| (e.0->String_0, e.1)));
            Ok(Record { fields })
        },
        v => Err(mismatch_error(Type::Record, &v)),
    }
}

/// Holds when at least two fields are named `key`.
pub open spec fn has_second_key(fs: Seq<(String, Value)>, key: Seq<char>) -> bool {
    exists|i: int, j: int| 0 <= i < j < fs.len() && fs[i].0@ == key && #[trigger] fs[j].0@ == key
        && #[trigger] fs[i].0@ == key
}

/// The position of the first field named `key`.
pub open spec fn first_key_index(fs: Seq<(String, Value)>, key: Seq<char>) -> int {
    choose|i: int| is_first_key(fs, key, i)
}

proof fn lemma_first_key_index(fs: Seq<(String, Value)>, key: Seq<char>, i: int)
    requires
        is_first_key(fs, key, i),
    ensures
        first_key_index(fs, key) == i,
{
    let j = first_key_index(fs, key);
    assert(is_first_key(fs, key, j));
    if j < i {
        assert(fs[j].0@ != key);
    }
    if i < j {
        assert(fs[i].0@ != key);
    }
}

proof fn lemma_second_key(fs: Seq<(String, Value)>, key: Seq<char>, i: int)
    requires
        is_first_key(fs, key, i),
    ensures
        has_key(fs.remove(i), key) == has_second_key(fs, key),
{
    let rest = fs.remove(i);
    if has_key(rest, key) {
        let m = choose|m: int| 0 <= m < rest.len() && rest[m].0@ == key;
        if m < i {
            assert(rest[m] == fs[m]);
        } else {
            assert(rest[m] == fs[m + 1]);
            assert(fs[i].0@ == key && fs[m + 1].0@ == key);
        }
    }
    if has_second_key(fs, key) {
        let (a, b) = choose|a: int, b: int|
            0 <= a < b < fs.len() && fs[a].0@ == key && #[trigger] fs[b].0@ == key
                && #[trigger] fs[a].0@ == key;
        assert(i <= a);
        assert(rest[b - 1] == fs[b]);
    }
}

/// Holds when `r` is the outcome of reading field `key` of `fs` as a `T`: the
/// field must be there exactly once.
pub open spec fn field_decodes<T: DecodeItfValue>(
    fs: Seq<(String, Value)>,
    key: Seq<char>,
    r: Result<T, DecodeError>,
) -> bool {
    if !has_key(fs, key) {
        r matches Err(DecodeError::FieldNotFound(s)) && s@ == key
    } else if has_second_key(fs, key) {
        r matches Err(DecodeError::DuplicateField(s)) && s@ == key
    } else {
        T::decodes(fs[first_key_index(fs, key)].1, r)
    }
}

/// Takes field `name` out of a record: it must be there exactly once.
pub fn take_field(rec: &mut Record, name: &str) -> (r: Result<Value, DecodeError>)
    ensures
        field_decodes::<Value>(old(rec).fields@, name@, r),
        r is Ok ==> final(rec).fields@ == old(rec).fields@.remove(
            first_key_index(old(rec).fields@, name@),
        ),
{
    match rec.remove(name) {
        None => Err(DecodeError::FieldNotFound(String::from_str(name))),
        Some(v) => {
            proof {
                let i = choose|i: int|
                    is_first_key(old(rec).fields@, name@, i) && v == old(rec).fields@[i].1
                        && rec.fields@ == old(rec).fields@.remove(i);
                lemma_first_key_index(old(rec).fields@, name@, i);
                lemma_second_key(old(rec).fields@, name@, i);
            }
            if rec.contains_key(name) {
                Err(DecodeError::DuplicateField(String::from_str(name)))
            } else {
                Ok(v)
            }
        },
    }
}

/// Decodes field `name` of a record as a `T`, taking it out of the record.
pub fn decode_field<T: DecodeItfValue>(rec: &mut Record, name: &str) -> (r: Result<
    T,
    DecodeError,
>)
    ensures
        field_decodes::<T>(old(rec).fields@, name@, r),
        r is Ok ==> final(rec).fields@ == old(rec).fields@.remove(
            first_key_index(old(rec).fields@, name@),
        ),
{
    let v = take_field(rec, name)?;
    T::decode(v)
}

/// Holds when `r` is the outcome of reading the discriminator `tag` of `fs`.
pub open spec fn tag_decodes(
    fs: Seq<(String, Value)>,
    tag: Seq<char>,
    r: Result<String, DecodeError>,
) -> bool {
    if !has_key(fs, tag) {
        r matches Err(DecodeError::UnknownTag(s)) && s@ == tag
    } else {
        field_decodes::<String>(fs, tag, r)
    }
}

/// Takes the discriminator `tag` out of a tagged record.
pub fn take_tag(rec: &mut Record, tag: &str) -> (r: Result<String, DecodeError>)
    ensures
        tag_decodes(old(rec).fields@, tag@, r),
        r is Ok ==> final(rec).fields@ == old(rec).fields@.remove(
            first_key_index(old(rec).fields@, tag@),
        ),
{
    if !rec.contains_key(tag) {
        return Err(DecodeError::UnknownTag(String::from_str(tag)));
    }
    decode_field::<String>(rec, tag)
}

/// The first of `names` that is `tag`.
pub open spec fn is_variant_index(names: Seq<&str>, tag: Seq<char>, i: int) -> bool {
    &&& 0 <= i < names.len()
    &&& names[i]@ == tag
    &&& forall|j: int| 0 <= j < i ==> names[j]@ != tag
}

/// The position of the variant that `tag` names.
pub fn variant_index(tag: &str, names: &[&str]) -> (r: Result<usize, DecodeError>)
    ensures
        match r {
            Ok(i) => is_variant_index(names@, tag@, i as int),
            Err(e) => (forall|j: int| 0 <= j < names@.len() ==> names@[j]@ != tag@) && (
            e matches DecodeError::UnknownVariant(s) && s@ == tag@),
        },
{
    let mut i: usize = 0;
    while i < names.len()
        invariant
            i <= names@.len(),
            forall|j: int| 0 <= j < i ==> names@[j]@ != tag@,
        decreases names@.len() - i,
    {
        if same_text(names[i], tag) {
            return Ok(i);
        }
        i = i + 1;
    }
    Err(DecodeError::UnknownVariant(String::from_str(tag)))
}

/// The data-less variant that a string value names.
pub fn unit_variant(value: Value, names: &[&str]) -> (r: Result<usize, DecodeError>)
    ensures
        match value {
            Value::String(s) => match r {
                Ok(i) => is_variant_index(names@, s@, i as int),
                Err(e) => (forall|j: int| 0 <= j < names@.len() ==> names@[j]@ != s@) && (
                e matches DecodeError::UnknownVariant(t) && t@ == s@),
            },
            _ => r == Err::<usize, DecodeError>(mismatch(Type::String, value)),
        },
{
    match value {
        Value::String(s) => variant_index(s.as_str(), names),
        v => Err(mismatch_error(Type::String, &v)),
    }
}

pub open spec fn tag_key() -> Seq<char> {
    seq!['t', 'a', 'g']
}

pub open spec fn content_key() -> Seq<char> {
    seq!['v', 'a', 'l', 'u', 'e']
}

/// The text of the discriminator `tag` of `fs`, when it is there once and is a string.
pub open spec fn tag_text(fs: Seq<(String, Value)>) -> Option<Seq<char>> {
    if has_key(fs, tag_key()) && !has_second_key(fs, tag_key()) && fs[first_key_index(
        fs,
        tag_key(),
    )].1 is String {
        Some(fs[first_key_index(fs, tag_key())].1->String_0@)
    } else {
        None
    }
}

/// The fields of a tagged record once its discriminator is taken out.
pub open spec fn without_tag(fs: Seq<(String, Value)>) -> Seq<(String, Value)> {
    fs.remove(first_key_index(fs, tag_key()))
}

/// Holds when `e` is the error for the fields `fs` of a tagged record whose
/// discriminator text is none of `names`.
pub open spec fn unknown_variant(fs: Seq<(String, Value)>, names: Seq<Seq<char>>, e: DecodeError) -> bool {
    tag_text(fs) matches Some(t) && !names.contains(t) && (e matches DecodeError::UnknownVariant(
        s,
    ) && s@ == t)
}

/// Reveals what the literals of the tagged encodings hold.
proof fn lemma_tag_literals()
    ensures
        "tag"@ == tag_key(),
        "value"@ == content_key(),
        "Some"@ == seq!['S', 'o', 'm', 'e'],
        "None"@ == seq!['N', 'o', 'n', 'e'],
        "Ok"@ == seq!['O', 'k'],
        "Err"@ == seq!['E', 'r', 'r'],
{
    reveal_strlit("tag");
    reveal_strlit("value");
    reveal_strlit("Some");
    reveal_strlit("None");
    reveal_strlit("Ok");
    reveal_strlit("Err");
    assert("tag"@ =~= tag_key());
    assert("value"@ =~= content_key());
    assert("Some"@ =~= seq!['S', 'o', 'm', 'e']);
    assert("None"@ =~= seq!['N', 'o', 'n', 'e']);
    assert("Ok"@ =~= seq!['O', 'k']);
    assert("Err"@ =~= seq!['E', 'r', 'r']);
}

/// An optional value written as a tagged record: `{"tag": "Some", "value": x}`
/// or `{"tag": "None", "value": ...}`.
#[derive(Clone, Copy, Debug, PartialEq, Eq)]
pub enum QuintOption<T> {
    Absent,
    Present(T),
}

impl<T: DecodeItfValue> DecodeItfValue for QuintOption<T> {
    open spec fn decodes(value: Value, r: Result<QuintOption<T>, DecodeError>) -> bool {
        match fields_of(value) {
            None => r == Err::<QuintOption<T>, DecodeError>(mismatch(Type::Record, value)),
            Some(fs) => match r {
                Ok(QuintOption::Present(x)) => tag_text(fs) == Some(seq!['S', 'o', 'm', 'e'])
                    && field_decodes::<T>(without_tag(fs), content_key(), Ok(x)),
                Ok(QuintOption::Absent) => tag_text(fs) == Some(seq!['N', 'o', 'n', 'e']),
                Err(e) => tag_decodes(fs, tag_key(), Err(e)) || (tag_text(fs) == Some(
                    seq!['S', 'o', 'm', 'e'],
                ) && field_decodes::<T>(without_tag(fs), content_key(), Err(e)))
                    || unknown_variant(
                    fs,
                    seq![seq!['S', 'o', 'm', 'e'], seq!['N', 'o', 'n', 'e']],
                    e,
                ),
            },
        }
    }

    fn decode(value: Value) -> (r: Result<QuintOption<T>, DecodeError>) {
        proof {
            lemma_tag_literals();
        }
        let mut rec = record_of(value)?;
        let tag = take_tag(&mut rec, "tag")?;
        if same_text(tag.as_str(), "Some") {
            let x = decode_field::<T>(&mut rec, "value")?;
            Ok(QuintOption::Present(x))
        } else if same_text(tag.as_str(), "None") {
            Ok(QuintOption::Absent)
        } else {
            proof {
                let names = seq![seq!['S', 'o', 'm', 'e'], seq!['N', 'o', 'n', 'e']];
                assert(names[0] == seq!['S', 'o', 'm', 'e']);
                assert(names[1] == seq!['N', 'o', 'n', 'e']);
                assert(!names.contains(tag@));
            }
            Err(DecodeError::UnknownVariant(tag))
        }
    }
}

/// A result written as a tagged record: `{"tag": "Ok", "value": x}` or
/// `{"tag": "Err", "value": e}`.
#[derive(Clone, Copy, Debug, PartialEq, Eq)]
pub enum QuintResult<T, E> {
    Success(T),
    Failure(E),
}

impl<T: DecodeItfValue, E: DecodeItfValue> DecodeItfValue for QuintResult<T, E> {
    open spec fn decodes(value: Value, r: Result<QuintResult<T, E>, DecodeError>) -> bool {
        match fields_of(value) {
            None => r == Err::<QuintResult<T, E>, DecodeError>(mismatch(Type::Record, value)),
            Some(fs) => match r {
                Ok(QuintResult::Success(x)) => tag_text(fs) == Some(seq!['O', 'k']) && field_decodes::<
                    T,
                >(without_tag(fs), content_key(), Ok(x)),
                Ok(QuintResult::Failure(x)) => tag_text(fs) == Some(seq!['E', 'r', 'r'])
                    && field_decodes::<E>(without_tag(fs), content_key(), Ok(x)),
                Err(e) => tag_decodes(fs, tag_key(), Err(e)) || (tag_text(fs) == Some(
                    seq!['O', 'k'],
                ) && field_decodes::<T>(without_tag(fs), content_key(), Err(e))) || (tag_text(fs)
                    == Some(seq!['E', 'r', 'r']) && field_decodes::<E>(
                    without_tag(fs),
                    content_key(),
                    Err(e),
                )) || unknown_variant(fs, seq![seq!['O', 'k'], seq!['E', 'r', 'r']], e),
            },
        }
    }

    fn decode(value: Value) -> (r: Result<QuintResult<T, E>, DecodeError>) {
        proof {
            lemma_tag_literals();
        }
        let mut rec = record_of(value)?;
        let tag = take_tag(&mut rec, "tag")?;
        if same_text(tag.as_str(), "Ok") {
            let x = decode_field::<T>(&mut rec, "value")?;
            Ok(QuintResult::Success(x))
        } else if same_text(tag.as_str(), "Err") {
            let x = decode_field::<E>(&mut rec, "value")?;
            Ok(QuintResult::Failure(x))
        } else {
            proof {
                let names = seq![seq!['O', 'k'], seq!['E', 'r', 'r']];
                assert(names[0] == seq!['O', 'k']);
                assert(names[1] == seq!['E', 'r', 'r']);
                assert(!names.contains(tag@));
            }
            Err(DecodeError::UnknownVariant(tag))
        }
    }
}

impl<T> QuintOption<T> {
    /// The same option as a `std` one.
    pub fn into_option(self) -> (r: Option<T>)
        ensures
            r == match self {
                QuintOption::Present(x) => Some(x),
                QuintOption::Absent => None::<T>,
            },
    {
        match self {
            QuintOption::Present(x) => Some(x),
            QuintOption::Absent => None,
        }
    }
}

impl<T, E> QuintResult<T, E> {
    /// The same result as a `std` one.
    pub fn into_result(self) -> (r: Result<T, E>)
        ensures
            r == match self {
                QuintResult::Success(x) => Ok(x),
                QuintResult::Failure(e) => Err::<T, E>(e),
            },
    {
        match self {
            QuintResult::Success(x) => Ok(x),
            QuintResult::Failure(e) => Err(e),
        }
    }
}

/// A value decoded as a `T`.
#[derive(Clone, Copy, Debug, PartialEq, Eq)]
pub struct Itf<T>(pub T);

impl<T> Itf<T> {
    /// The decoded value.
    pub fn value(self) -> (r: T)
        ensures
            r == self.0,
    {
        self.0
    }
}

impl<T: DecodeItfValue> DecodeItfValue for Itf<T> {
    open spec fn decodes(value: Value, r: Result<Itf<T>, DecodeError>) -> bool {
        match r {
            Ok(x) => T::decodes(value, Ok(x.0)),
            Err(e) => T::decodes(value, Err(e)),
        }
    }

    fn decode(value: Value) -> (r: Result<Itf<T>, DecodeError>) {
        let x = T::decode(value)?;
        Ok(Itf(x))
    }
}

/// The variant that a sum-type value selects.
#[derive(Debug, PartialEq, Eq)]
pub enum Variant {
    /// A data-less variant, by its position among the unit names.
    Unit(usize),
    /// A variant with data, by its position among the tagged names, with the
    /// fields of the record that remain once the discriminator is taken out.
    Tagged(usize, Record),
}

/// Holds when `r` is the outcome of selecting a variant of a sum type whose
/// data-less variants are `units` and whose variants with data are `tagged`,
/// discriminated by the field `tag`.
pub open spec fn selects(
    value: Value,
    tag: Seq<char>,
    units: Seq<&str>,
    tagged: Seq<&str>,
    r: Result<Variant, DecodeError>,
) -> bool {
    match value {
        Value::String(s) => match r {
            Ok(Variant::Unit(i)) => is_variant_index(units, s@, i as int),
            Ok(Variant::Tagged(_, _)) => false,
            Err(e) => (forall|j: int| 0 <= j < units.len() ==> units[j]@ != s@) && (
            e matches DecodeError::UnknownVariant(t) && t@ == s@),
        },
        _ => match fields_of(value) {
            None => r == Err::<Variant, DecodeError>(mismatch(Type::Record, value)),
            Some(fs) => match r {
                Ok(Variant::Tagged(i, rest)) => (exists|t: String|
                    tag_decodes(fs, tag, Ok(t)) && is_variant_index(tagged, t@, i as int))
                    && rest.fields@ == fs.remove(first_key_index(fs, tag)),
                Ok(Variant::Unit(_)) => false,
                Err(e) => tag_decodes(fs, tag, Err(e)) || exists|t: String|
                    tag_decodes(fs, tag, Ok(t)) && (forall|j: int|
                        0 <= j < tagged.len() ==> tagged[j]@ != t@) && (
                    e matches DecodeError::UnknownVariant(u) && u@ == t@),
            },
        },
    }
}

/// Selects the variant of a sum type that a value encodes: a string names a
/// data-less variant; a record (or a map with string keys) names a variant with
/// data by its discriminator field `tag`, and the rest of the record is its data.
pub fn select_variant(value: Value, tag: &str, units: &[&str], tagged: &[&str]) -> (r: Result<
    Variant,
    DecodeError,
>)
    ensures
        selects(value, tag@, units@, tagged@, r),
{
    match value {
        Value::String(s) => {
            let i = variant_index(s.as_str(), units)?;
            Ok(Variant::Unit(i))
        },
        v => {
            let mut rec = record_of(v)?;
            let t = take_tag(&mut rec, tag)?;
            let i = variant_index(t.as_str(), tagged)?;
            Ok(Variant::Tagged(i, rec))
        },
    }
}

/// The key and value pairs of a map, or the fields of a record with their
/// names as string keys.
pub open spec fn pairs_of(v: Value) -> Option<Seq<(Value, Value)>> {
    match v {
        Value::ItfMap(m) => Some(m.entries@),
        Value::Record(r) => Some(
            r.fields@.map_values(|f: (String, Value)| (Value::String(f.0), f.1)),
        ),
        _ => None,
    }
}

/// Holds when `r` is the outcome of decoding the pair `p`, key first.
pub open spec fn pair_decodes<K: DecodeItfValue, V: DecodeItfValue>(
    p: (Value, Value),
    r: Result<(K, V), DecodeError>,
) -> bool {
    match r {
        Ok((k, v)) => K::decodes(p.0, Ok(k)) && V::decodes(p.1, Ok(v)),
        Err(e) => K::decodes(p.0, Err(e)) || (decodes_ok::<K>(p.0) && V::decodes(p.1, Err(e))),
    }
}

/// Holds when the pair `p` decodes.
pub open spec fn pair_ok<K: DecodeItfValue, V: DecodeItfValue>(p: (Value, Value)) -> bool {
    exists|x: (K, V)| pair_decodes::<K, V>(p, Ok(x))
}

/// A map decoded from a map or a record: pairs.
#[derive(Debug, PartialEq, Eq)]
pub struct Dict<K, V> {
    pub entries: Vec<(K, V)>,
}

impl<K, V> Dict<K, V> {
    /// The map without pairs.
    pub fn new() -> (r: Dict<K, V>)
        ensures
            r.entries@.len() == 0,
    {
        Dict { entries: Vec::new() }
    }

    /// The number of pairs.
    pub fn len(&self) -> (r: usize)
        ensures
            r == self.entries@.len(),
    {
        self.entries.len()
    }

    /// Whether there is no pair.
    pub fn is_empty(&self) -> (r: bool)
        ensures
            r == (self.entries@.len() == 0),
    {
        self.entries.len() == 0
    }

    /// The pairs.
    pub fn iter(&self) -> (r: &[(K, V)])
        ensures
            r@ == self.entries@,
    {
        self.entries.as_slice()
    }
}

/// The pairs of a map or a record, or the mismatch for a map.
fn pairs(value: Value) -> (r: Result<Vec<(Value, Value)>, DecodeError>)
    ensures
        match pairs_of(value) {
            Some(ps) => r matches Ok(l) && l@ == ps,
            None => r == Err::<Vec<(Value, Value)>, DecodeError>(mismatch(Type::ItfMap, value)),
        },
{
    match value {
        Value::ItfMap(m) => Ok(m.entries),
        Value::Record(rec) => {
            let ghost fs = rec.fields@;
            let mut rest = rec.fields;
            let mut out: Vec<(Value, Value)> = Vec::new();
            while rest.len() > 0
                invariant
                    out@.len() <= fs.len(),
                    rest@ == fs.skip(out@.len() as int),
                    forall|k: int|
                        0 <= k < out@.len() ==> #[trigger] out@[k] == (
                            Value::String(fs[k].0),
                            fs[k].1,
                        ),
                decreases rest@.len(),
            {
                let ghost i = out@.len() as int;
                let (name, v) = rest.remove(0);
                assert((name, v) == fs[i]);
                out.push((Value::String(name), v));
                assert(rest@ =~= fs.skip(out@.len() as int));
            }
            assert(out@ =~= fs.map_values(|f: (String, Value)| (Value::String(f.0), f.1)));
            Ok(out)
        },
        v => Err(mismatch_error(Type::ItfMap, &v)),
    }
}

/// Holds when `r` is the outcome of decoding the pairs `ps` in order, each key
/// before its value: all decoded, or the error of the first that fails.
pub open spec fn pairs_decode<K: DecodeItfValue, V: DecodeItfValue>(
    ps: Seq<(Value, Value)>,
    r: Result<Vec<(K, V)>, DecodeError>,
) -> bool {
    match r {
        Ok(out) => out@.len() == ps.len() && forall|i: int|
            0 <= i < ps.len() ==> pair_decodes::<K, V>(#[trigger] ps[i], Ok(out@[i])),
        Err(e) => exists|i: int|
            0 <= i < ps.len() && pair_decodes::<K, V>(#[trigger] ps[i], Err(e)) && forall|j: int|
                0 <= j < i ==> pair_ok::<K, V>(#[trigger] ps[j]),
    }
}

/// Decodes pairs in order, each key before its value, stopping at the first error.
pub fn decode_pairs<K: DecodeItfValue, V: DecodeItfValue>(ps: Vec<(Value, Value)>) -> (r: Result<
    Vec<(K, V)>,
    DecodeError,
>)
    ensures
        pairs_decode::<K, V>(ps@, r),
{
    let ghost xs = ps@;
    let mut rest = ps;
    let mut out: Vec<(K, V)> = Vec::new();
    while rest.len() > 0
        invariant
            xs == ps@,
            out@.len() <= xs.len(),
            rest@ == xs.skip(out@.len() as int),
            forall|k: int|
                0 <= k < out@.len() ==> pair_decodes::<K, V>(#[trigger] xs[k], Ok(out@[k])),
        decreases rest@.len(),
    {
        let ghost i = out@.len() as int;
        let p = rest.remove(0);
        assert(p == xs[i]);
        let (kv, vv) = p;
        let k = match K::decode(kv) {
            Ok(k) => k,
            Err(e) => {
                assert forall|j: int| 0 <= j < i implies pair_ok::<K, V>(#[trigger] xs[j]) by {
                    assert(pair_decodes::<K, V>(xs[j], Ok(out@[j])));
                }
                assert(pair_decodes::<K, V>(xs[i], Err(e)));
                return Err(e);
            },
        };
        let v = match V::decode(vv) {
            Ok(v) => v,
            Err(e) => {
                assert forall|j: int| 0 <= j < i implies pair_ok::<K, V>(#[trigger] xs[j]) by {
                    assert(pair_decodes::<K, V>(xs[j], Ok(out@[j])));
                }
                assert(pair_decodes::<K, V>(xs[i], Err(e)));
                return Err(e);
            },
        };
        out.push((k, v));
        assert(rest@ =~= xs.skip(out@.len() as int));
    }
    Ok(out)
}

/// A decoded type whose values can serve as map keys or set elements.
pub trait Key: Sized {
    /// Whether two keys are the same key.
    open spec fn key_eq(a: Self, b: Self) -> bool {
        a == b
    }

    /// Whether two keys are the same key.
    fn same_key(&self, other: &Self) -> (r: bool)
        ensures
            r == Self::key_eq(*self, *other),
    ;
}

impl Key for bool {
    fn same_key(&self, other: &bool) -> (r: bool) {
        *self == *other
    }
}

impl Key for char {
    fn same_key(&self, other: &char) -> (r: bool) {
        *self == *other
    }
}

impl Key for i64 {
    fn same_key(&self, other: &i64) -> (r: bool) {
        *self == *other
    }
}

impl Key for i32 {
    fn same_key(&self, other: &i32) -> (r: bool) {
        *self == *other
    }
}

impl Key for i16 {
    fn same_key(&self, other: &i16) -> (r: bool) {
        *self == *other
    }
}

impl Key for i8 {
    fn same_key(&self, other: &i8) -> (r: bool) {
        *self == *other
    }
}

impl Key for u64 {
    fn same_key(&self, other: &u64) -> (r: bool) {
        *self == *other
    }
}

impl Key for u32 {
    fn same_key(&self, other: &u32) -> (r: bool) {
        *self == *other
    }
}

impl Key for u16 {
    fn same_key(&self, other: &u16) -> (r: bool) {
        *self == *other
    }
}

impl Key for u8 {
    fn same_key(&self, other: &u8) -> (r: bool) {
        *self == *other
    }
}

impl Key for String {
    /// Strings are the same key when they hold the same characters.
    open spec fn key_eq(a: String, b: String) -> bool {
        a@ == b@
    }

    fn same_key(&self, other: &String) -> (r: bool) {
        *self == *other
    }
}

impl Key for BigInt {
    /// Integers are the same key when they are equal.
    open spec fn key_eq(a: BigInt, b: BigInt) -> bool {
        a@ == b@
    }

    fn same_key(&self, other: &BigInt) -> (r: bool) {
        self.same(other)
    }
}

impl Key for Value {
    /// Values are the same key when they are the same value.
    open spec fn key_eq(a: Value, b: Value) -> bool {
        value_same(a, b)
    }

    fn same_key(&self, other: &Value) -> (r: bool) {
        same_value(self, other)
    }
}

impl<T: Key> Key for Vec<T> {
    /// Sequences are the same key when they hold the same keys in order.
    open spec fn key_eq(a: Vec<T>, b: Vec<T>) -> bool {
        a@.len() == b@.len() && forall|i: int| 0 <= i < a@.len() ==> T::key_eq(#[trigger] a@[i], b@[i])
    }

    fn same_key(&self, other: &Vec<T>) -> (r: bool) {
        if self.len() != other.len() {
            return false;
        }
        let mut i: usize = 0;
        while i < self.len()
            invariant
                self@.len() == other@.len(),
                i <= self@.len(),
                forall|k: int| 0 <= k < i ==> T::key_eq(#[trigger] self@[k], other@[k]),
            decreases self@.len() - i,
        {
            if !self[i].same_key(&other[i]) {
                return false;
            }
            i = i + 1;
        }
        true
    }
}

/// Holds of the pairs whose key is not the same key as `k`.
pub open spec fn other_key<K: Key, V>(k: K) -> spec_fn((K, V)) -> bool {
    |x: (K, V)| !K::key_eq(k, x.0)
}

/// The pairs that remain after putting the first `n` of `all` into a map in
/// order: each put drops the pairs with the same key and adds the new pair.
pub open spec fn latest<K: Key, V>(all: Seq<(K, V)>, n: int) -> Seq<(K, V)>
    decreases n,
{
    if n <= 0 {
        Seq::empty()
    } else {
        latest(all, n - 1).filter(other_key::<K, V>(all[n - 1].0)).push(all[n - 1])
    }
}

/// Holds when no pair has the same key as a pair before it.
pub open spec fn distinct_keys<K: Key, V>(s: Seq<(K, V)>) -> bool {
    forall|a: int, b: int|
        #![trigger s[a], s[b]]
        0 <= a < b < s.len() ==> !K::key_eq(s[b].0, s[a].0)
}

/// Puts a pair into pairs with distinct keys: the pairs with the same key go,
/// and the new pair comes last.
fn put<K: Key, V>(pairs: Vec<(K, V)>, p: (K, V)) -> (r: Vec<(K, V)>)
    requires
        distinct_keys(pairs@),
    ensures
        r@ == pairs@.filter(other_key::<K, V>(p.0)).push(p),
        distinct_keys(r@),
{
    let ghost old = pairs@;
    let mut rest = pairs;
    let mut kept: Vec<(K, V)> = Vec::new();
    let mut t: usize = 0;
    let total = rest.len();
    while rest.len() > 0
        invariant
            old.len() == total,
            t + rest@.len() == old.len(),
            rest@ == old.skip(t as int),
            kept@ == old.take(t as int).filter(other_key::<K, V>(p.0)),
            distinct_keys(old),
            distinct_keys(kept@),
            forall|a: int|
                0 <= a < kept@.len() ==> exists|s: int| 0 <= s < t && #[trigger] kept@[a] == old[s],
            forall|a: int| 0 <= a < kept@.len() ==> !K::key_eq(p.0, (#[trigger] kept@[a]).0),
        decreases rest@.len(),
    {
        let x = rest.remove(0);
        proof {
            assert(x == old[t as int]);
            assert(old.take(t + 1).drop_last() =~= old.take(t as int));
            assert(old.take(t + 1).last() == old[t as int]);
            reveal(Seq::filter);
        }
        if !p.0.same_key(&x.0) {
            let ghost before = kept@;
            kept.push(x);
            proof {
                assert forall|a: int, b: int|
                    #![trigger kept@[a], kept@[b]]
                    0 <= a < b < kept@.len() implies !K::key_eq(kept@[b].0, kept@[a].0) by {
                    if b < before.len() {
                        assert(kept@[a] == before[a] && kept@[b] == before[b]);
                    } else {
                        assert(kept@[a] == before[a]);
                        let s = choose|s: int| 0 <= s < t && before[a] == old[s];
                        assert(old[s] == before[a]);
                    }
                }
                assert forall|a: int| 0 <= a < kept@.len() implies exists|s: int|
                    0 <= s < t + 1 && #[trigger] kept@[a] == old[s] by {
                    if a < before.len() {
                        assert(kept@[a] == before[a]);
                    } else {
                        assert(kept@[a] == old[t as int]);
                    }
                }
            }
        }
        t = t + 1;
        assert(rest@ =~= old.skip(t as int));
    }
    assert(old.take(t as int) =~= old);
    let ghost before = kept@;
    kept.push(p);
    proof {
        assert forall|a: int, b: int|
            #![trigger kept@[a], kept@[b]]
            0 <= a < b < kept@.len() implies !K::key_eq(kept@[b].0, kept@[a].0) by {
            if b < before.len() {
                assert(kept@[a] == before[a] && kept@[b] == before[b]);
            } else {
                assert(kept@[a] == before[a]);
            }
        }
    }
    kept
}

/// Puts the pairs `all` into a map in order: a later pair replaces an earlier
/// one with the same key.
pub fn collect_latest<K: Key, V>(all: Vec<(K, V)>) -> (r: Vec<(K, V)>)
    ensures
        r@ == latest(all@, all@.len() as int),
        distinct_keys(r@),
{
    let ghost xs = all@;
    let mut rest = all;
    let mut out: Vec<(K, V)> = Vec::new();
    let mut i: usize = 0;
    let total = rest.len();
    while rest.len() > 0
        invariant
            xs.len() == total,
            i + rest@.len() == xs.len(),
            rest@ == xs.skip(i as int),
            out@ == latest(xs, i as int),
            distinct_keys(out@),
        decreases rest@.len(),
    {
        let p = rest.remove(0);
        assert(p == xs[i as int]);
        out = put(out, p);
        i = i + 1;
        assert(rest@ =~= xs.skip(i as int));
    }
    out
}

impl<K: DecodeItfValue + Key, V: DecodeItfValue> DecodeItfValue for Dict<K, V> {
    /// A map, keys decoded as `K`; or a record, names decoded as `K` from
    /// strings. Every pair is decoded, in order, each key before its value, and
    /// the first error stops the work. The decoded pairs are then put into the
    /// map in order, so that a later pair replaces an earlier one whose decoded
    /// key is the same key, and no two pairs of the result share a key.
    open spec fn decodes(value: Value, r: Result<Dict<K, V>, DecodeError>) -> bool {
        match pairs_of(value) {
            None => r == Err::<Dict<K, V>, DecodeError>(mismatch(Type::ItfMap, value)),
            Some(ps) => match r {
                Ok(d) => distinct_keys(d.entries@) && exists|all: Vec<(K, V)>|
                    pairs_decode::<K, V>(ps, Ok(all)) && d.entries@ == latest(
                        all@,
                        all@.len() as int,
                    ),
                Err(e) => pairs_decode::<K, V>(ps, Err(e)),
            },
        }
    }

    fn decode(value: Value) -> (r: Result<Dict<K, V>, DecodeError>) {
        let ps = pairs(value)?;
        let ghost pv = ps@;
        let all = decode_pairs::<K, V>(ps)?;
        let ghost whole = all;
        let entries = collect_latest(all);
        assert(pairs_decode::<K, V>(pv, Ok(whole)));
        Ok(Dict { entries })
    }
}

/// Holds of the elements that are not the same key as `k`.
pub open spec fn other_item<T: Key>(k: T) -> spec_fn(T) -> bool {
    |x: T| !T::key_eq(k, x)
}

/// The elements that remain after adding the first `n` of `all` to a set in
/// order: each addition drops the same element and adds the new one last.
pub open spec fn latest_items<T: Key>(all: Seq<T>, n: int) -> Seq<T>
    decreases n,
{
    if n <= 0 {
        Seq::empty()
    } else {
        latest_items(all, n - 1).filter(other_item::<T>(all[n - 1])).push(all[n - 1])
    }
}

/// Holds when no element is the same key as an element before it.
pub open spec fn distinct_items<T: Key>(s: Seq<T>) -> bool {
    forall|a: int, b: int|
        #![trigger s[a], s[b]]
        0 <= a < b < s.len() ==> !T::key_eq(s[b], s[a])
}

/// Adds an element to distinct elements: the same element goes, and the new
/// one comes last.
fn add_item<T: Key>(items: Vec<T>, x: T) -> (r: Vec<T>)
    requires
        distinct_items(items@),
    ensures
        r@ == items@.filter(other_item::<T>(x)).push(x),
        distinct_items(r@),
{
    let ghost old = items@;
    let mut rest = items;
    let mut kept: Vec<T> = Vec::new();
    let mut t: usize = 0;
    let total = rest.len();
    while rest.len() > 0
        invariant
            old.len() == total,
            t + rest@.len() == old.len(),
            rest@ == old.skip(t as int),
            kept@ == old.take(t as int).filter(other_item::<T>(x)),
            distinct_items(old),
            distinct_items(kept@),
            forall|a: int|
                0 <= a < kept@.len() ==> exists|s: int| 0 <= s < t && #[trigger] kept@[a] == old[s],
            forall|a: int| 0 <= a < kept@.len() ==> !T::key_eq(x, #[trigger] kept@[a]),
        decreases rest@.len(),
    {
        let y = rest.remove(0);
        proof {
            assert(y == old[t as int]);
            assert(old.take(t + 1).drop_last() =~= old.take(t as int));
            assert(old.take(t + 1).last() == old[t as int]);
            reveal(Seq::filter);
        }
        if !x.same_key(&y) {
            let ghost before = kept@;
            kept.push(y);
            proof {
                assert forall|a: int, b: int|
                    #![trigger kept@[a], kept@[b]]
                    0 <= a < b < kept@.len() implies !T::key_eq(kept@[b], kept@[a]) by {
                    if b < before.len() {
                        assert(kept@[a] == before[a] && kept@[b] == before[b]);
                    } else {
                        assert(kept@[a] == before[a]);
                        let s = choose|s: int| 0 <= s < t && before[a] == old[s];
                        assert(old[s] == before[a]);
                    }
                }
                assert forall|a: int| 0 <= a < kept@.len() implies exists|s: int|
                    0 <= s < t + 1 && #[trigger] kept@[a] == old[s] by {
                    if a < before.len() {
                        assert(kept@[a] == before[a]);
                    } else {
                        assert(kept@[a] == old[t as int]);
                    }
                }
            }
        }
        t = t + 1;
        assert(rest@ =~= old.skip(t as int));
    }
    assert(old.take(t as int) =~= old);
    let ghost before = kept@;
    kept.push(x);
    proof {
        assert forall|a: int, b: int|
            #![trigger kept@[a], kept@[b]]
            0 <= a < b < kept@.len() implies !T::key_eq(kept@[b], kept@[a]) by {
            if b < before.len() {
                assert(kept@[a] == before[a] && kept@[b] == before[b]);
            } else {
                assert(kept@[a] == before[a]);
            }
        }
    }
    kept
}

/// Adds the elements `all` to a set in order: a later element replaces an
/// earlier one that is the same key.
pub fn collect_items<T: Key>(all: Vec<T>) -> (r: Vec<T>)
    ensures
        r@ == latest_items(all@, all@.len() as int),
        distinct_items(r@),
{
    let ghost xs = all@;
    let mut rest = all;
    let mut out: Vec<T> = Vec::new();
    let mut i: usize = 0;
    let total = rest.len();
    while rest.len() > 0
        invariant
            xs.len() == total,
            i + rest@.len() == xs.len(),
            rest@ == xs.skip(i as int),
            out@ == latest_items(xs, i as int),
            distinct_items(out@),
        decreases rest@.len(),
    {
        let x = rest.remove(0);
        assert(x == xs[i as int]);
        out = add_item(out, x);
        i = i + 1;
        assert(rest@ =~= xs.skip(i as int));
    }
    out
}

/// A set decoded from a set, a list or a tuple: distinct elements.
#[derive(Debug, PartialEq, Eq)]
pub struct SetOf<T> {
    pub elements: Vec<T>,
}

impl<T> SetOf<T> {
    /// The number of elements.
    pub fn len(&self) -> (r: usize)
        ensures
            r == self.elements@.len(),
    {
        self.elements.len()
    }
}

impl<T: Key> SetOf<T> {
    /// Whether some element is the same key as `x`.
    pub fn contains(&self, x: &T) -> (r: bool)
        ensures
            r == exists|i: int| 0 <= i < self.elements@.len() && T::key_eq(#[trigger] self.elements@[i], *x),
    {
        let mut i: usize = 0;
        while i < self.elements.len()
            invariant
                i <= self.elements@.len(),
                forall|k: int| 0 <= k < i ==> !T::key_eq(#[trigger] self.elements@[k], *x),
            decreases self.elements@.len() - i,
        {
            if self.elements[i].same_key(x) {
                return true;
            }
            i = i + 1;
        }
        false
    }
}

impl<T: DecodeItfValue + Key> DecodeItfValue for SetOf<T> {
    /// A set, a list or a tuple, element by element in order; the first error
    /// stops the work. The decoded elements are then added to the set in
    /// order, so that no two elements of the result are the same key.
    open spec fn decodes(value: Value, r: Result<SetOf<T>, DecodeError>) -> bool {
        match elements_of(value) {
            None => r == Err::<SetOf<T>, DecodeError>(mismatch(Type::ItfSet, value)),
            Some(xs) => match r {
                Ok(s) => distinct_items(s.elements@) && exists|all: Vec<T>|
                    seq_decodes::<T>(xs, Ok(all)) && s.elements@ == latest_items(
                        all@,
                        all@.len() as int,
                    ),
                Err(e) => seq_decodes::<T>(xs, Err(e)),
            },
        }
    }

    fn decode(value: Value) -> (r: Result<SetOf<T>, DecodeError>) {
        let items = elements(value, Type::ItfSet)?;
        let ghost xs = items@;
        let all = decode_all::<T>(items)?;
        let ghost whole = all;
        let elements = collect_items(all);
        assert(seq_decodes::<T>(xs, Ok(whole)));
        Ok(SetOf { elements })
    }
}

/// Round trip: a value read from a document `j` and decoded into `Value` comes
/// back unchanged, and reading its wire form `k` again gives the same value.
pub proof fn lemma_decode_round_trip(
    v: Value,
    j: Json,
    r: Result<Value, DecodeError>,
    k: Json,
)
    requires
        encodes(v, j),
        <Value as DecodeItfValue>::decodes(v, r),
        r matches Ok(w) && encodes(w, k),
    ensures
        valid_wire(j),
        valid_wire(k),
        r == Ok::<Value, DecodeError>(v),
        forall|u: Value| encodes(u, k) ==> value_same(v, u),
{
    lemma_wire_round_trip(v, j);
    lemma_wire_round_trip(v, k);
}

/// A number literal and a big integer of the same value decode into equal
/// big integers.
pub proof fn lemma_bigint_forms_agree(
    n: i64,
    b: BigInt,
    r1: Result<BigInt, DecodeError>,
    r2: Result<BigInt, DecodeError>,
)
    requires
        b@ == n,
        <BigInt as DecodeItfValue>::decodes(Value::Number(n), r1),
        <BigInt as DecodeItfValue>::decodes(Value::BigInt(b), r2),
    ensures
        r1 matches Ok(x) && (r2 matches Ok(y) && x@ == y@),
{
}

/// A big integer outside the signed 64-bit range fails with a range error for
/// an `i64` target and decodes without loss into a big integer.
pub proof fn lemma_range_enforced(
    b: BigInt,
    r1: Result<i64, DecodeError>,
    r2: Result<BigInt, DecodeError>,
)
    requires
        !(i64::MIN <= b@ <= i64::MAX),
        <i64 as DecodeItfValue>::decodes(Value::BigInt(b), r1),
        <BigInt as DecodeItfValue>::decodes(Value::BigInt(b), r2),
    ensures
        r1 == Err::<i64, DecodeError>(DecodeError::Range),
        r2 matches Ok(c) && c@ == b@,
{
}

/// A field is found by its wire name alone: when field `i` is the only one
/// named `name`, reading `name` decodes that field's value.
pub proof fn lemma_field_by_wire_name<T: DecodeItfValue>(
    fs: Seq<(String, Value)>,
    name: Seq<char>,
    i: int,
    r: Result<T, DecodeError>,
)
    requires
        0 <= i < fs.len(),
        fs[i].0@ == name,
        forall|j: int| 0 <= j < fs.len() && j != i ==> fs[j].0@ != name,
        field_decodes::<T>(fs, name, r),
    ensures
        T::decodes(fs[i].1, r),
{
    assert(is_first_key(fs, name, i));
    lemma_first_key_index(fs, name, i);
    assert(has_key(fs, name));
    if has_second_key(fs, name) {
        let (a, b) = choose|a: int, b: int|
            0 <= a < b < fs.len() && fs[a].0@ == name && #[trigger] fs[b].0@ == name
                && #[trigger] fs[a].0@ == name;
        assert(a == i && b == i);
    }
}

/// A list, a tuple and a set of the same elements decode alike into a vector,
/// a triple and an array of three.
pub proof fn lemma_sequence_forms<T: DecodeItfValue>(
    l: Vec<Value>,
    t: Tuple,
    s: ItfSet,
    r: Result<Vec<T>, DecodeError>,
    r3: Result<(T, T, T), DecodeError>,
    ra: Result<[T; 3], DecodeError>,
)
    requires
        t.elements@ == l@,
        s.elements@ == l@,
    ensures
        <Vec<T> as DecodeItfValue>::decodes(Value::List(l), r) == <Vec<
            T,
        > as DecodeItfValue>::decodes(Value::Tuple(t), r),
        <Vec<T> as DecodeItfValue>::decodes(Value::List(l), r) == <Vec<
            T,
        > as DecodeItfValue>::decodes(Value::ItfSet(s), r),
        <(T, T, T) as DecodeItfValue>::decodes(Value::List(l), r3) == <(
            T,
            T,
            T,
        ) as DecodeItfValue>::decodes(Value::Tuple(t), r3),
        <(T, T, T) as DecodeItfValue>::decodes(Value::List(l), r3) == <(
            T,
            T,
            T,
        ) as DecodeItfValue>::decodes(Value::ItfSet(s), r3),
        <[T; 3] as DecodeItfValue>::decodes(Value::List(l), ra) == <[
            T;
            3
        ] as DecodeItfValue>::decodes(Value::Tuple(t), ra),
        <[T; 3] as DecodeItfValue>::decodes(Value::List(l), ra) == <[
            T;
            3
        ] as DecodeItfValue>::decodes(Value::ItfSet(s), ra),
{
}

} // verus!
