use itf::bigint::BigInt;
use itf::decode::{
    decode_field, record_of, select_variant, take_tag, unit_variant, variant_index, Dict, Variant,
};
use itf::value::{Type, Value};
use itf::{decode_value, from_str, DecodeError, DecodeItfValue};

fn value(text: &str) -> Value {
    from_str::<Value>(text).unwrap()
}

#[derive(Debug)]
struct Named {
    foo: i64,
    bar: Option<Box<Named>>,
    baz: Dict<BigInt, Vec<String>>,
}

impl DecodeItfValue for Named {
    fn decode(value: Value) -> Result<Self, DecodeError> {
        let mut rec = record_of(value)?;
        let foo = decode_field(&mut rec, "foo")?;
        let bar = match rec.contains_key("bar") {
            true => Some(Box::new(decode_field::<Named>(&mut rec, "bar")?)),
            false => None,
        };
        let baz = decode_field(&mut rec, "baz")?;
        Ok(Named { foo, bar, baz })
    }
}

#[test]
fn struct_with_named_fields() {
    let text = r##"{"foo": 1, "baz": {"#map": []},
        "bar": {"foo": 2, "baz": {"#map": [[{"#bigint": "7"}, {"#set": ["a"]}]]}}}"##;
    let named = decode_value::<Named>(value(text)).unwrap();
    assert_eq!(named.foo, 1);
    let inner = named.bar.unwrap();
    assert_eq!(inner.foo, 2);
    assert_eq!(inner.baz.entries[0].0, BigInt::new(7));
    assert_eq!(inner.baz.entries[0].1, vec!["a".to_string()]);
    let missing = decode_value::<Named>(value(r##"{"baz": {"#map": []}}"##));
    assert_eq!(missing.unwrap_err(), DecodeError::FieldNotFound("foo".to_string()));
}

#[derive(Debug, PartialEq, Eq)]
struct Unnamed(i64, bool, String);

impl DecodeItfValue for Unnamed {
    fn decode(value: Value) -> Result<Self, DecodeError> {
        let (a, b, c) = <(i64, bool, String)>::decode(value)?;
        Ok(Unnamed(a, b, c))
    }
}

#[test]
fn struct_with_unnamed_fields() {
    let t = decode_value::<Unnamed>(value(r##"{"#tup": [1, true, "x"]}"##));
    assert_eq!(t, Ok(Unnamed(1, true, "x".to_string())));
    let short = decode_value::<Unnamed>(value(r##"{"#tup": [1, true]}"##));
    assert_eq!(short, Err(DecodeError::Arity { expected: 3, found: 2 }));
}

#[derive(Debug, PartialEq, Eq)]
enum Unit {
    Foo,
    Bar,
    Baz,
}

impl DecodeItfValue for Unit {
    fn decode(value: Value) -> Result<Self, DecodeError> {
        let units = [Unit::Foo, Unit::Bar, Unit::Baz];
        let i = match value {
            Value::String(_) => unit_variant(value, &["Foo", "Bar", "Baz"])?,
            other => {
                let mut rec = record_of(other)?;
                let tag = take_tag(&mut rec, "tag")?;
                variant_index(&tag, &["Foo", "Bar", "Baz"])?
            }
        };
        let mut units = units.into_iter();
        Ok(units.nth(i).unwrap())
    }
}

#[test]
fn enum_with_unit_variants() {
    assert_eq!(decode_value::<Unit>(value(r#""Bar""#)), Ok(Unit::Bar));
    assert_eq!(decode_value::<Unit>(value(r#"{"tag": "Baz"}"#)), Ok(Unit::Baz));
    assert_eq!(
        decode_value::<Unit>(value(r#""Qux""#)),
        Err(DecodeError::UnknownVariant("Qux".to_string()))
    );
}

#[derive(Debug, PartialEq, Eq)]
enum NamedVariants {
    Foo { foo: i64, bar: bool },
    Bar { bar: Vec<i64> },
    Baz { toto: (bool, i64, String), tata: Vec<NamedVariants> },
}

impl DecodeItfValue for NamedVariants {
    fn decode(value: Value) -> Result<Self, DecodeError> {
        let mut rec = record_of(value)?;
        let tag = take_tag(&mut rec, "tag")?;
        match variant_index(&tag, &["Foo", "Bar", "Baz"])? {
            0 => Ok(NamedVariants::Foo {
                foo: decode_field(&mut rec, "foo")?,
                bar: decode_field(&mut rec, "bar")?,
            }),
            1 => Ok(NamedVariants::Bar { bar: decode_field(&mut rec, "bar")? }),
            _ => Ok(NamedVariants::Baz {
                toto: decode_field(&mut rec, "toto")?,
                tata: decode_field(&mut rec, "tata")?,
            }),
        }
    }
}

#[test]
fn enum_with_named_variants() {
    let text = r##"{"tag": "Baz", "toto": {"#tup": [true, 3, "s"]},
        "tata": [{"tag": "Foo", "foo": 1, "bar": false}, {"tag": "Bar", "bar": {"#set": [4]}}]}"##;
    let v = decode_value::<NamedVariants>(value(text)).unwrap();
    assert_eq!(
        v,
        NamedVariants::Baz {
            toto: (true, 3, "s".to_string()),
            tata: vec![
                NamedVariants::Foo { foo: 1, bar: false },
                NamedVariants::Bar { bar: vec![4] }
            ],
        }
    );
    let untagged = decode_value::<NamedVariants>(value(r#"{"foo": 1}"#));
    assert_eq!(untagged, Err(DecodeError::UnknownTag("tag".to_string())));
}

#[derive(Debug, PartialEq, Eq)]
enum Mixed {
    Foo { foo: i64, bar: bool },
    Bar,
}

impl DecodeItfValue for Mixed {
    fn decode(value: Value) -> Result<Self, DecodeError> {
        match select_variant(value, "tag", &["Bar"], &["Foo"])? {
            Variant::Unit(_) => Ok(Mixed::Bar),
            Variant::Tagged(_, mut rec) => Ok(Mixed::Foo {
                foo: decode_field(&mut rec, "foo")?,
                bar: decode_field(&mut rec, "bar")?,
            }),
        }
    }
}

#[test]
fn enum_with_mixed_variants() {
    assert_eq!(decode_value::<Mixed>(value(r#""Bar""#)), Ok(Mixed::Bar));
    assert_eq!(
        decode_value::<Mixed>(value(r#"{"tag": "Foo", "foo": 5, "bar": true}"#)),
        Ok(Mixed::Foo { foo: 5, bar: true })
    );
    assert_eq!(
        decode_value::<Mixed>(value(r#""Foo""#)),
        Err(DecodeError::UnknownVariant("Foo".to_string()))
    );
    assert_eq!(
        decode_value::<Mixed>(value("[]")),
        Err(DecodeError::InvalidType { expected: Type::Record, found: Type::List })
    );
}

#[test]
fn variant_selection_errors() {
    let v = |t: &str| from_str::<Value>(t).unwrap();
    assert_eq!(
        select_variant(v(r#""Q""#), "tag", &["N", "W", "E", "S"], &[]),
        Err(DecodeError::UnknownVariant("Q".to_string()))
    );
    assert_eq!(select_variant(v(r#""E""#), "tag", &["N", "W", "E", "S"], &[]), Ok(Variant::Unit(2)));
    assert_eq!(
        select_variant(v(r#"{"kind": "Foo"}"#), "tag", &[], &["Foo"]),
        Err(DecodeError::UnknownTag("tag".to_string()))
    );
    assert_eq!(
        select_variant(v(r#"{"tag": 3}"#), "tag", &[], &["Foo"]),
        Err(DecodeError::InvalidType { expected: Type::String, found: Type::Number })
    );
    assert_eq!(
        select_variant(v(r#"{"tag": "Baz"}"#), "tag", &[], &["Foo"]),
        Err(DecodeError::UnknownVariant("Baz".to_string()))
    );
    match select_variant(v(r#"{"tag": "Foo", "x": 1}"#), "tag", &[], &["Bar", "Foo"]) {
        Ok(Variant::Tagged(1, rec)) => assert_eq!(rec.fields, vec![("x".to_string(), Value::Number(1))]),
        other => panic!("unexpected {:?}", other),
    }
}

#[derive(Debug)]
enum RecordEnum {
    One(i64, String),
    Two { foo: String, bar: i64 },
}

impl DecodeItfValue for RecordEnum {
    fn decode(value: Value) -> Result<Self, DecodeError> {
        if value.is_tuple() || value.is_list() {
            let (a, b) = <(i64, String)>::decode(value)?;
            return Ok(RecordEnum::One(a, b));
        }
        let mut rec = record_of(value)?;
        Ok(RecordEnum::Two { foo: decode_field(&mut rec, "_foo")?, bar: decode_field(&mut rec, "_bar")? })
    }
}

#[derive(Debug)]
struct Complete {
    flag: bool,
    number: i64,
    text: String,
    bigint: BigInt,
    list: Vec<BigInt>,
    tuple: (String, BigInt),
    set: Vec<BigInt>,
    map: Dict<Vec<BigInt>, BigInt>,
    variants: Vec<RecordEnum>,
}

impl DecodeItfValue for Complete {
    fn decode(value: Value) -> Result<Self, DecodeError> {
        let mut rec = record_of(value)?;
        Ok(Complete {
            flag: decode_field(&mut rec, "_bool")?,
            number: decode_field(&mut rec, "_number")?,
            text: decode_field(&mut rec, "_str")?,
            bigint: decode_field(&mut rec, "_bigint")?,
            list: decode_field(&mut rec, "_list")?,
            tuple: decode_field(&mut rec, "_tuple")?,
            set: decode_field(&mut rec, "_set")?,
            map: decode_field(&mut rec, "_map")?,
            variants: decode_field(&mut rec, "_enum")?,
        })
    }
}

#[test]
fn test_complete() {
    let text = r##"{
        "_bool": true,
        "_number": -99,
        "_str": "hello",
        "_bigint": {"#bigint": "-999"},
        "_int_from_bigint": {"#bigint": "-999"},
        "_bigint_from_int": -999,
        "_list": [{"#bigint": "1"}, {"#bigint": "2"}, {"#bigint": "3"}],
        "_tuple": {"#tup": ["hello", {"#bigint": "999"}]},
        "_set": {"#set": [{"#bigint": "1"}, {"#bigint": "2"}, {"#bigint": "3"}]},
        "_map": {"#map": [[{"#set": [{"#bigint": "1"}, {"#bigint": "2"}]}, {"#bigint": "3"}],
                          [{"#set": [{"#bigint": "2"}, {"#bigint": "3"}]}, {"#bigint": "4"}]]},
        "_enum": [{"#tup": [1, "hello"]}, {"_foo": "hello", "_bar": 1}]
    }"##;
    let c = decode_value::<Complete>(from_str::<Value>(text).unwrap()).unwrap();
    assert!(c.flag);
    assert_eq!(c.number, -99);
    assert_eq!(c.text, "hello");
    assert_eq!(c.bigint, BigInt::new(-999));
    assert_eq!(c.list, vec![BigInt::new(1), BigInt::new(2), BigInt::new(3)]);
    assert_eq!(c.tuple, ("hello".to_string(), BigInt::new(999)));
    assert_eq!(c.set.len(), 3);
    assert_eq!(c.map.entries[1], (vec![BigInt::new(2), BigInt::new(3)], BigInt::new(4)));
    assert!(matches!(c.variants[0], RecordEnum::One(1, _)));
    assert!(matches!(c.variants[1], RecordEnum::Two { bar: 1, .. }));
}
