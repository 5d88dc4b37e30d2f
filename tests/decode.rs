use itf::bigint::BigInt;
use itf::decode::{
    SetOf,
    decode_field, record_of, select_variant, take_tag, unit_variant, variant_index, Dict, Ignored,
    Itf, QuintOption, QuintResult, Variant,
};
use itf::value::{Type, Value};
use itf::wire::{is_wire_ready, value_from_json, value_to_json, WireError};
use itf::Error;
use itf::{decode_value, from_str, DecodeError, DecodeItfValue};

fn value(text: &str) -> Value {
    from_str::<Value>(text).unwrap()
}

fn big(text: &str) -> BigInt {
    BigInt::parse(text).unwrap()
}

#[test]
fn list() {
    let list = <Vec<i64>>::decode(value("[1, 2, 3]")).unwrap();
    assert_eq!(list, vec![1, 2, 3]);
}

#[test]
fn tuple() {
    let (a, b, c) = <(i64, String, bool)>::decode(value(r##"{"#tup": [1, "Hello", true]}"##)).unwrap();
    assert_eq!(a, 1);
    assert_eq!(b.as_str(), "Hello");
    assert!(c);
}

#[test]
fn deserialize_bigint_int() {
    let bigint = decode_value::<Itf<BigInt>>(value("1024")).unwrap();
    assert_eq!(bigint.0, BigInt::new(1024));
}

#[test]
fn deserialize_bigint() {
    let bigint = decode_value::<Itf<BigInt>>(value(
        r##"{"#bigint": "1234567891011121314151617181920"}"##,
    ))
    .unwrap();
    assert_eq!(bigint.0, big("1234567891011121314151617181920"));
}

#[test]
fn display() {
    let s = "1234567891011121314151617181920";
    let itf: Itf<BigInt> = Itf(big(s));
    assert_eq!(itf.value().to_string(), s.to_string());
}

#[test]
fn deserialize_tuple_2() {
    let json = r##"{"#tup": [{"#bigint": "1234567891011121314151617181920"}, 1234]}"##;
    let tuple = decode_value::<(Itf<BigInt>, i64)>(value(json)).unwrap();
    assert_eq!(tuple.0, Itf(big("1234567891011121314151617181920")));
    assert_eq!(tuple.1, 1234);
}

#[test]
fn deserialize_tuple3() {
    let json = r##"{"#tup": [{"#bigint": "1234567891011121314151617181920"}, 1234, "Hello world"]}"##;
    let tuple = decode_value::<(Itf<BigInt>, i64, String)>(value(json)).unwrap();
    assert_eq!(
        tuple,
        (
            Itf(big("1234567891011121314151617181920")),
            1234,
            "Hello world".to_string()
        )
    );
}

#[test]
fn deserialize_tuple_wrong_cardinality() {
    let json = r##"{"#tup": [{"#bigint": "1234567891011121314151617181920"}, 1234]}"##;
    let r = decode_value::<(Itf<BigInt>, i64, String)>(value(json));
    assert_eq!(r, Err(DecodeError::Arity { expected: 3, found: 2 }));
}

#[test]
fn deserialize_set() {
    let set = decode_value::<Vec<i64>>(value(r##"{"#set": [1, 2, 3, 4]}"##)).unwrap();
    assert_eq!(set, vec![1, 2, 3, 4]);
}

#[test]
fn test_tuple() {
    let itf = r##"{"#tup": [1, 2, 3]}"##;
    let a: [u8; 3] = decode_value(value(itf)).unwrap();
    assert_eq!(a, [1, 2, 3]);
    let _: (u8, u8, u8) = decode_value(value(itf)).unwrap();
    let _: Vec<u8> = decode_value(value(itf)).unwrap();
}

#[test]
fn test_set() {
    let itf = r##"{"#set": [1, 2, 3]}"##;
    let _: [u8; 3] = decode_value(value(itf)).unwrap();
    let _: (u8, u8, u8) = decode_value(value(itf)).unwrap();
    let _: itf::wire::Json = decode_value(value(itf)).unwrap();
    assert_eq!(
        decode_value::<[u8; 2]>(value(itf)),
        Err(DecodeError::Arity { expected: 2, found: 3 })
    );
    let _: Vec<u8> = decode_value(value(itf)).unwrap();
    let _: Value = decode_value(value(itf)).unwrap();
}

#[test]
fn test_bigint_deser() {
    let itf = r##"{"#bigint": "-99"}"##;
    assert_eq!(BigInt::new(-99), decode_value::<BigInt>(value(itf)).unwrap());
    assert!(decode_value::<i64>(value(itf)).is_ok());
    assert_eq!(decode_value::<u64>(value(itf)), Err(DecodeError::Range));
}

#[test]
fn test_biguint_deser() {
    let itf = r##"{"#bigint": "99"}"##;
    assert_eq!(BigInt::new(99), decode_value::<BigInt>(value(itf)).unwrap());
    assert_eq!(decode_value::<u64>(value(itf)), Ok(99));
    assert_eq!(decode_value::<u8>(value(itf)), Ok(99));
}

#[test]
fn test_bigint_to_int() {
    let itf = r##"{"#bigint": "-9223372036854775809"}"##;
    assert!(decode_value::<i64>(value(itf)).is_err());
    assert!(decode_value::<BigInt>(value(itf)).is_ok());
}

#[test]
fn bigint_literal_and_wrapper_agree() {
    let a = decode_value::<BigInt>(value("-99")).unwrap();
    let b = decode_value::<BigInt>(value(r##"{"#bigint": "-99"}"##)).unwrap();
    assert_eq!(a, b);
}

#[test]
fn bigint_out_of_signed_range() {
    let itf = r##"{"#bigint": "9223372036854775808"}"##;
    assert_eq!(decode_value::<i64>(value(itf)), Err(DecodeError::Range));
    let b = decode_value::<BigInt>(value(itf)).unwrap();
    assert_eq!(b.to_string(), "9223372036854775808");
    assert_eq!(b.to_u64(), Some(9223372036854775808));
}

#[test]
fn sequence_forms_are_interchangeable() {
    let expected = (1i64, 2i64, 3i64);
    for text in [r##"{"#set":[1,2,3]}"##, r##"{"#tup":[1,2,3]}"##, "[1,2,3]"] {
        assert_eq!(decode_value::<(i64, i64, i64)>(value(text)), Ok(expected));
        assert_eq!(decode_value::<Vec<i64>>(value(text)), Ok(vec![1, 2, 3]));
    }
}

#[test]
fn tuple_arity_mismatch() {
    let r = decode_value::<(i64, i64, i64)>(value(r##"{"#tup":[1,2]}"##));
    assert_eq!(r, Err(DecodeError::Arity { expected: 3, found: 2 }));
}

#[test]
fn type_mismatch_is_reported() {
    assert_eq!(
        decode_value::<bool>(value("1")),
        Err(DecodeError::InvalidType { expected: Type::Bool, found: Type::Number })
    );
    assert_eq!(
        decode_value::<String>(value(r##"{"#unserializable": "Int"}"##)),
        Err(DecodeError::UnsupportedType)
    );
    assert_eq!(decode_value::<u8>(value("256")), Err(DecodeError::Range));
    assert_eq!(decode_value::<i32>(value("-2147483648")), Ok(i32::MIN));
    assert_eq!(decode_value::<u32>(value("-1")), Err(DecodeError::Range));
}

#[test]
fn char_needs_one_character() {
    assert_eq!(decode_value::<char>(value(r#""x""#)), Ok('x'));
    assert_eq!(
        decode_value::<char>(value(r#""xy""#)),
        Err(DecodeError::InvalidType { expected: Type::Char, found: Type::String })
    );
}

#[test]
fn option_and_ignored_take_anything_present() {
    assert_eq!(decode_value::<Option<i64>>(value("5")), Ok(Some(5)));
    assert_eq!(decode_value::<Ignored>(value(r##"{"#unserializable": "Int"}"##)), Ok(Ignored));
}

#[test]
fn test_deserialize_adhoc_some() {
    let some = decode_value::<QuintOption<BigInt>>(value(
        r##"{"tag": "Some", "value": {"#bigint": "1"}}"##,
    ))
    .unwrap();
    assert_eq!(some, QuintOption::Present(BigInt::new(1)));
}

#[test]
fn test_deserialize_adhoc_none() {
    let none = decode_value::<QuintOption<BigInt>>(value(r#"{"tag": "None", "value": {}}"#)).unwrap();
    assert_eq!(none, QuintOption::Absent);
}

#[test]
fn tagged_option_of_bigint() {
    let some = decode_value::<QuintOption<BigInt>>(value(
        r##"{"tag":"Some","value":{"#bigint":"42"}}"##,
    ));
    assert_eq!(some, Ok(QuintOption::Present(BigInt::new(42))));
    let none = decode_value::<QuintOption<BigInt>>(value(r#"{"tag":"None","value":{}}"#));
    assert_eq!(none, Ok(QuintOption::Absent));
    let other = decode_value::<QuintOption<BigInt>>(value(r#"{"tag":"Maybe","value":{}}"#));
    assert_eq!(other, Err(DecodeError::UnknownVariant("Maybe".to_string())));
    let untagged = decode_value::<QuintOption<BigInt>>(value(r#"{"value":{}}"#));
    assert_eq!(untagged, Err(DecodeError::UnknownTag("tag".to_string())));
}

#[test]
fn test_deserialize_option_some() {
    let mut rec = record_of(value(r#"{"foo": {"tag": "Some", "value": 42}}"#)).unwrap();
    let foo = decode_field::<QuintOption<u64>>(&mut rec, "foo").unwrap();
    assert_eq!(foo.into_option(), Some(42));
}

#[test]
fn test_deserialize_option_none() {
    let mut rec = record_of(value(r#"{"foo": {"tag": "None", "value": {}}}"#)).unwrap();
    let foo = decode_field::<QuintOption<u64>>(&mut rec, "foo").unwrap();
    assert_eq!(foo.into_option(), None);
}

#[test]
fn test_deserialize_result_ok() {
    let mut rec = record_of(value(r#"{"foo": {"tag": "Ok", "value": 42}}"#)).unwrap();
    let foo = decode_field::<QuintResult<u64, u64>>(&mut rec, "foo").unwrap();
    assert_eq!(foo.into_result(), Ok(42));
}

#[test]
fn test_deserialize_result_err() {
    let mut rec = record_of(value(r#"{"foo": {"tag": "Err", "value": 42}}"#)).unwrap();
    let foo = decode_field::<QuintResult<u64, u64>>(&mut rec, "foo").unwrap();
    assert_eq!(foo.into_result(), Err(42));
}

#[derive(Debug, PartialEq, Eq)]
enum Dir {
    N,
    W,
    E,
    S,
}

impl DecodeItfValue for Dir {
    fn decode(value: Value) -> Result<Self, DecodeError> {
        match unit_variant(value, &["N", "W", "E", "S"])? {
            0 => Ok(Dir::N),
            1 => Ok(Dir::W),
            2 => Ok(Dir::E),
            _ => Ok(Dir::S),
        }
    }
}

#[test]
fn unit_enum_by_name() {
    assert_eq!(decode_value::<Dir>(value(r#""N""#)), Ok(Dir::N));
    assert_eq!(decode_value::<Dir>(value(r#""S""#)), Ok(Dir::S));
    assert_eq!(
        decode_value::<Dir>(value(r#""Q""#)),
        Err(DecodeError::UnknownVariant("Q".to_string()))
    );
    assert_eq!(
        decode_value::<Dir>(value("3")),
        Err(DecodeError::InvalidType { expected: Type::String, found: Type::Number })
    );
}

#[derive(Debug, PartialEq, Eq)]
struct Boat {
    bank: Dir,
    load: i64,
}

impl DecodeItfValue for Boat {
    fn decode(value: Value) -> Result<Self, DecodeError> {
        let mut rec = record_of(value)?;
        Ok(Boat {
            bank: decode_field(&mut rec, "bank_of_boat")?,
            load: decode_field(&mut rec, "load")?,
        })
    }
}

#[test]
fn renamed_field() {
    let boat = decode_value::<Boat>(value(r#"{"bank_of_boat": "E", "load": 2, "extra": true}"#));
    assert_eq!(boat, Ok(Boat { bank: Dir::E, load: 2 }));
    let missing = decode_value::<Boat>(value(r#"{"bank": "E", "load": 2}"#));
    assert_eq!(missing, Err(DecodeError::FieldNotFound("bank_of_boat".to_string())));
}

#[test]
fn first_failing_field_wins() {
    let r = decode_value::<Boat>(value(r#"{"bank_of_boat": 1, "load": "x"}"#));
    assert_eq!(
        r,
        Err(DecodeError::InvalidType { expected: Type::String, found: Type::Number })
    );
}

#[test]
fn duplicate_field_is_rejected() {
    let mut rec = record_of(value(r#"{"a": 1}"#)).unwrap();
    rec.fields.push(("a".to_string(), Value::Number(2)));
    assert_eq!(
        decode_field::<i64>(&mut rec, "a"),
        Err(DecodeError::DuplicateField("a".to_string()))
    );
}

#[test]
fn tag_of_a_map_with_string_keys() {
    let mut rec = record_of(value(r##"{"#map": [["tag", "init"], ["n", 1]]}"##)).unwrap();
    assert_eq!(take_tag(&mut rec, "tag"), Ok("init".to_string()));
    assert_eq!(variant_index("init", &["send", "init"]), Ok(1));
    assert_eq!(decode_field::<i64>(&mut rec, "n"), Ok(1));
    let bad = record_of(value(r##"{"#map": [[1, 2]]}"##));
    assert_eq!(
        bad,
        Err(DecodeError::InvalidType { expected: Type::Record, found: Type::ItfMap })
    );
}

#[test]
fn test_num_bigint() {
    let itf = "[-1, [99]]";
    assert_eq!(BigInt::new(-99), decode_value::<BigInt>(from_str::<Value>(itf).unwrap()).unwrap());
    assert!(decode_value::<i64>(from_str::<Value>(itf).unwrap()).is_err());
    assert!(decode_value::<u64>(from_str::<Value>(itf).unwrap()).is_err());
    assert!(!matches!(from_str::<Value>(itf).unwrap(), Value::BigInt(_)));
    let two_limbs = from_str::<Value>("[1, [0, 1]]").unwrap();
    assert_eq!(decode_value::<BigInt>(two_limbs), Ok(BigInt::parse("4294967296").unwrap()));
    let zero_sign = from_str::<Value>("[0, [5]]").unwrap();
    assert_eq!(decode_value::<BigInt>(zero_sign), Ok(BigInt::new(0)));
    let bad_sign = from_str::<Value>("[2, [5]]").unwrap();
    assert_eq!(
        decode_value::<BigInt>(bad_sign),
        Err(DecodeError::InvalidType { expected: Type::BigInt, found: Type::List })
    );
}

#[test]
fn wire_round_trip() {
    let text = r##"{"a": [1, {"#bigint": "-123456789012345678901234567890"}],
        "b": {"#tup": [true, "x"]}, "c": {"#set": []},
        "d": {"#map": [[{"#tup": [1]}, "k"]]}, "e": {"#unserializable": "Int"}}"##;
    let v = from_str::<Value>(text).unwrap();
    assert!(is_wire_ready(&v));
    let j = value_to_json(&v);
    let back = value_from_json(&j).unwrap();
    assert_eq!(back, v);
    let same = decode_value::<Value>(back).unwrap();
    assert_eq!(same, v);
}

#[test]
fn wire_errors() {
    assert_eq!(from_str::<Value>("null"), Err(Error::Wire(WireError::Null)));
    assert_eq!(from_str::<Value>("1.5"), Err(Error::Wire(WireError::Number)));
    assert_eq!(from_str::<Value>("18446744073709551615"), Err(Error::Wire(WireError::Number)));
    assert_eq!(from_str::<Value>(r##"{"#bigint": "12a"}"##), Err(Error::Wire(WireError::BigInt)));
    assert_eq!(
        from_str::<Value>(r##"{"#foo": 1}"##),
        Err(Error::Wire(WireError::Marker("#foo".to_string())))
    );
    assert_eq!(from_str::<Value>(r##"{"#bigint": "1_000"}"##), Ok(Value::BigInt(BigInt::new(1000))));
}

#[test]
fn bigint_text() {
    assert_eq!(BigInt::parse("-0").unwrap(), BigInt::new(0));
    assert_eq!(BigInt::parse("+17").unwrap().to_i64(), Some(17));
    assert_eq!(BigInt::parse("-9223372036854775808").unwrap().to_i64(), Some(i64::MIN));
    assert_eq!(BigInt::parse("18446744073709551615").unwrap().to_u64(), Some(u64::MAX));
    assert_eq!(BigInt::parse("18446744073709551616").unwrap().to_u64(), None);
    assert!(BigInt::parse("").is_none());
    assert!(BigInt::parse("-").is_none());
    assert!(BigInt::parse("_1").is_none());
    assert_eq!(BigInt::new(i64::MIN).to_string(), "-9223372036854775808");
    let (sign, limbs) = BigInt::parse("-4294967297").unwrap().to_sign_limbs();
    assert_eq!((sign, limbs), (-1, vec![1, 1]));
    assert!(BigInt::new(-5).is_negative());
    assert_eq!(BigInt::from_sign_limbs(true, vec![0, 0]), BigInt::new(0));
}

#[test]
fn narrow_integer_targets() {
    assert_eq!(decode_value::<i8>(from_str::<Value>("-128").unwrap()), Ok(i8::MIN));
    assert_eq!(decode_value::<i8>(from_str::<Value>("128").unwrap()), Err(DecodeError::Range));
    assert_eq!(decode_value::<i16>(from_str::<Value>(r##"{"#bigint": "-32768"}"##).unwrap()), Ok(i16::MIN));
    assert_eq!(decode_value::<u16>(from_str::<Value>("65535").unwrap()), Ok(u16::MAX));
    assert_eq!(decode_value::<u16>(from_str::<Value>("65536").unwrap()), Err(DecodeError::Range));
}

#[test]
fn error_messages() {
    assert_eq!(
        DecodeError::Arity { expected: 3, found: 2 }.message(),
        "expected tuple with 3 elements but found 2"
    );
    assert_eq!(
        DecodeError::InvalidType { expected: Type::Bool, found: Type::ItfMap }.message(),
        "invalid type: expected bool, found map"
    );
    assert_eq!(DecodeError::UnknownVariant("Q".to_string()).message(), "unknown variant: Q");
    assert_eq!(DecodeError::Range.message(), "integer out of range");
    assert_eq!(BigInt::from_u64(u64::MAX).to_string(), "18446744073709551615");
}

#[test]
fn deserialize_map() {
    let map = decode_value::<Dict<String, i64>>(
        from_str::<Value>(r##"{"#map": [["hello", 1], ["world", 2]]}"##).unwrap(),
    )
    .unwrap();
    assert_eq!(map.entries, vec![("hello".to_string(), 1), ("world".to_string(), 2)]);
}

#[test]
fn test_failed_bare_bigint_to_int() {
    let v = from_str::<Value>(r##"{"#bigint": "12"}"##).unwrap();
    assert_eq!(decode_value::<i64>(v), Ok(12));
    let v = from_str::<Value>(r##"{"#bigint": "12"}"##).unwrap();
    assert_eq!(decode_value::<Itf<BigInt>>(v), Ok(Itf(BigInt::new(12))));
}

#[test]
fn test_itf_value_equivalent() {
    let text = r##"{"bool": true, "number": -99, "str": "hello", "list": [1, 2, 3],
        "record": {"a": 1, "b": 2, "c": 3},
        "bigint": {"#bigint": "-999"}, "tuple": {"#tup": [1, 2, 3]},
        "set": {"#set": [1, 2, 3]}, "map": {"#map": [[1, 3], [2, 4]]}}"##;
    let value = from_str::<Value>(text).unwrap();
    let again = from_str::<Value>(text).unwrap();
    assert_eq!(decode_value::<Value>(value), Ok(again));
}

#[derive(Debug, PartialEq, Eq)]
enum Enum {
    Foo,
    Bar(String),
    Baz((String, bool)),
    FooBar(String, BigInt, bool),
}

impl DecodeItfValue for Enum {
    fn decode(value: Value) -> Result<Self, DecodeError> {
        match select_variant(value, "tag", &[], &["Foo", "Bar", "Baz", "FooBar"])? {
            Variant::Tagged(0, _) => Ok(Enum::Foo),
            Variant::Tagged(1, mut rec) => Ok(Enum::Bar(decode_field(&mut rec, "value")?)),
            Variant::Tagged(2, mut rec) => Ok(Enum::Baz(decode_field(&mut rec, "value")?)),
            Variant::Tagged(_, mut rec) => {
                let (a, b, c) = decode_field(&mut rec, "value")?;
                Ok(Enum::FooBar(a, b, c))
            }
            Variant::Unit(_) => Err(DecodeError::Custom("no data-less variant".to_string())),
        }
    }
}

#[test]
fn test_deserialize_enum() {
    let v = |t: &str| from_str::<Value>(t).unwrap();
    assert_eq!(decode_value::<Enum>(v(r#"{"tag": "Foo", "value": {}}"#)), Ok(Enum::Foo));
    assert_eq!(
        decode_value::<Enum>(v(r#"{"tag": "Bar", "value": "hello"}"#)),
        Ok(Enum::Bar("hello".to_string()))
    );
    assert_eq!(
        decode_value::<Enum>(v(r##"{"tag": "Baz", "value": {"#tup": ["hello", true]}}"##)),
        Ok(Enum::Baz(("hello".to_string(), true)))
    );
    assert_eq!(
        decode_value::<Enum>(v(
            r##"{"tag": "FooBar", "value": {"#tup": ["hello", {"#bigint": "42"}, true]}}"##
        )),
        Ok(Enum::FooBar("hello".to_string(), BigInt::new(42), true))
    );
}

#[derive(Debug)]
enum FooBarInt {
    Foo { foo: Dict<i64, i64> },
    Bar { bar: Vec<Vec<(i64, i64)>> },
}

impl DecodeItfValue for FooBarInt {
    fn decode(value: Value) -> Result<Self, DecodeError> {
        match select_variant(value, "typ", &[], &["Foo", "Bar"])? {
            Variant::Tagged(0, mut rec) => Ok(FooBarInt::Foo { foo: decode_field(&mut rec, "_foo")? }),
            Variant::Tagged(_, mut rec) => Ok(FooBarInt::Bar { bar: decode_field(&mut rec, "_bar")? }),
            Variant::Unit(_) => Err(DecodeError::Custom("no data-less variant".to_string())),
        }
    }
}

#[test]
fn test_deserialize_any() {
    let text = r##"[{"_foo": {"#map": [[{"#bigint": "1"}, {"#bigint": "2"}]]}, "typ": "Foo"},
        {"_bar": [[[{"#bigint": "1"}, {"#bigint": "2"}]]], "typ": "Bar"}]"##;
    let items = decode_value::<Vec<FooBarInt>>(from_str::<Value>(text).unwrap()).unwrap();
    match &items[0] {
        FooBarInt::Foo { foo } => assert_eq!(foo.entries, vec![(1, 2)]),
        other => panic!("unexpected {:?}", other),
    }
    match &items[1] {
        FooBarInt::Bar { bar } => assert_eq!(bar, &vec![vec![(1, 2)]]),
        other => panic!("unexpected {:?}", other),
    }
}

#[test]
fn map_keeps_last_of_equal_keys() {
    let text = r##"{"#map": [[{"#bigint": "1"}, "a"], [2, "b"], [{"#bigint": "1"}, "c"]]}"##;
    let d = decode_value::<Dict<i64, String>>(from_str::<Value>(text).unwrap()).unwrap();
    assert_eq!(d.entries, vec![(2, "b".to_string()), (1, "c".to_string())]);
    let mixed = r##"{"#map": [[1, 10], [{"#bigint": "1"}, 20]]}"##;
    let d = decode_value::<Dict<i64, i64>>(from_str::<Value>(mixed).unwrap()).unwrap();
    assert_eq!(d.entries, vec![(1, 20)]);
    let bad = r##"{"#map": [[1, "a"], [1, 2]]}"##;
    assert_eq!(
        decode_value::<Dict<i64, String>>(from_str::<Value>(bad).unwrap()),
        Err(DecodeError::InvalidType { expected: Type::String, found: Type::Number })
    );
}

#[test]
fn set_semantics() {
    let mut s = itf::value::ItfSet::new();
    assert!(s.insert(Value::Number(1)));
    assert!(s.insert(Value::BigInt(BigInt::new(2))));
    assert!(!s.insert(Value::Number(1)));
    assert!(s.contains(&Value::BigInt(BigInt::parse("2").unwrap())));
    assert!(!s.contains(&Value::Number(2)));
    assert_eq!(s.len(), 2);
    assert!(s.remove(&Value::Number(1)));
    assert!(!s.remove(&Value::Number(1)));
    assert_eq!(s.elements, vec![Value::BigInt(BigInt::new(2))]);
}

#[test]
fn json_tree_target() {
    let v = from_str::<Value>(r##"{"a": {"#set": [1]}}"##).unwrap();
    let j = decode_value::<itf::wire::Json>(v).unwrap();
    assert_eq!(value_from_json(&j), Ok(from_str::<Value>(r##"{"a": {"#set": [1]}}"##).unwrap()));
}

#[test]
fn set_target() {
    let s = decode_value::<SetOf<u8>>(from_str::<Value>(r##"{"#set": [1, 2, 3]}"##).unwrap()).unwrap();
    assert_eq!(s.elements, vec![1, 2, 3]);
    assert!(s.contains(&2));
    let dup = decode_value::<SetOf<i64>>(from_str::<Value>(r##"[1, {"#bigint": "2"}, 1]"##).unwrap()).unwrap();
    assert_eq!(dup.elements, vec![2, 1]);
    assert_eq!(
        decode_value::<SetOf<u8>>(from_str::<Value>("5").unwrap()),
        Err(DecodeError::InvalidType { expected: Type::ItfSet, found: Type::Number })
    );
}
