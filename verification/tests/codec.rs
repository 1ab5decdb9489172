use wasmtime_component_serde::de::{
    contains_name, decode_record, find_case, find_field, new_flags, next_value_maybe, Child,
};
use wasmtime_component_serde::decode::Hint;
use serde_json::Value;
use wasmtime_component_serde::{
    deserialize_val, serialize_val, DecodeError, DeserializeVal, Document, EncodeError, Kind,
    Number, SerializeVal, TokenKind, Type, Val,
};

fn text(s: &str) -> Document {
    Document::String(s.to_string())
}

fn entries(items: Vec<(&str, Document)>) -> Document {
    Document::Entries(items.into_iter().map(|(k, v)| (k.to_string(), v)).collect())
}

fn option(ty: Type) -> Type {
    Type::Option(Box::new(ty))
}

fn some(v: Val) -> Val {
    Val::Option(Some(Box::new(v)))
}

fn record_type() -> Type {
    Type::Record(vec![
        ("required".to_string(), Type::S32),
        ("optional".to_string(), option(Type::S32)),
    ])
}

fn variant_type() -> Type {
    Type::Variant(vec![
        ("a".to_string(), Some(Type::S32)),
        ("none".to_string(), None),
    ])
}

fn flags_type() -> Type {
    Type::Flags(vec!["read".to_string(), "write".to_string()])
}

fn mismatch(expected: Kind, found: TokenKind) -> DecodeError {
    DecodeError::ShapeMismatch { expected, found }
}

fn present(doc: Document) -> Document {
    Document::Present(Box::new(doc))
}

/// The JSON value that a document is written as.
fn to_value(doc: &Document) -> Value {
    match doc {
        Document::Null | Document::Absent => Value::Null,
        Document::Present(inner) => to_value(inner),
        Document::Bool(b) => Value::Bool(*b),
        Document::Signed(n) => Value::from(*n),
        Document::Unsigned(n) => Value::from(*n),
        Document::Float32(bits) => Value::from(f32::from_bits(*bits)),
        Document::Float64(bits) => Value::from(f64::from_bits(*bits)),
        Document::Char(c) => Value::String(c.to_string()),
        Document::String(s) => Value::String(s.clone()),
        Document::Bytes(bytes) => Value::Array(bytes.iter().map(|b| Value::from(*b)).collect()),
        Document::List(items) => Value::Array(items.iter().map(to_value).collect()),
        Document::Entries(entries) => Value::Object(
            entries.iter().map(|(k, v)| (k.clone(), to_value(v))).collect(),
        ),
    }
}

fn json(text: &str) -> Value {
    serde_json::from_str(text).unwrap()
}

#[test]
fn range_enforcement_on_text() {
    assert_eq!(
        deserialize_val(&text("256"), &Type::U8),
        Err(DecodeError::RangeError { expected: Kind::U8, value: Number::Text("256".to_string()) })
    );
    assert_eq!(deserialize_val(&text("255"), &Type::U8), Ok(Val::U8(255)));
}

#[test]
fn range_enforcement_on_native_numbers() {
    assert_eq!(deserialize_val(&Document::Unsigned(255), &Type::U8), Ok(Val::U8(255)));
    assert_eq!(
        deserialize_val(&Document::Unsigned(256), &Type::U8),
        Err(DecodeError::RangeError { expected: Kind::U8, value: Number::Unsigned(256) })
    );
    assert_eq!(
        deserialize_val(&Document::Signed(-1), &Type::U8),
        Err(DecodeError::RangeError { expected: Kind::U8, value: Number::Signed(-1) })
    );
    assert_eq!(deserialize_val(&Document::Signed(-128), &Type::S8), Ok(Val::S8(-128)));
    assert_eq!(deserialize_val(&Document::Unsigned(5), &Type::S64), Ok(Val::S64(5)));
    assert_eq!(
        deserialize_val(&Document::Unsigned(u64::MAX), &Type::S64),
        Err(DecodeError::RangeError { expected: Kind::S64, value: Number::Unsigned(u64::MAX) })
    );
    assert_eq!(
        deserialize_val(&Document::Unsigned(u64::MAX), &Type::U64),
        Ok(Val::U64(u64::MAX))
    );
    assert_eq!(
        deserialize_val(&Document::Signed(i64::MIN), &Type::S32),
        Err(DecodeError::RangeError { expected: Kind::S32, value: Number::Signed(i64::MIN) })
    );
}

#[test]
fn non_finite_floats() {
    let v = deserialize_val(&text("NaN"), &Type::Float32).unwrap();
    match v {
        Val::Float32(bits) => assert!(f32::from_bits(bits).is_nan()),
        ref other => panic!("not a Float32: {other:?}"),
    }
    assert_eq!(serialize_val(&v), Ok(text("NaN")));

    let v = deserialize_val(&text("NaN"), &Type::Float64).unwrap();
    match v {
        Val::Float64(bits) => assert!(f64::from_bits(bits).is_nan()),
        ref other => panic!("not a Float64: {other:?}"),
    }
    assert_eq!(serialize_val(&v), Ok(text("NaN")));

    assert_eq!(
        deserialize_val(&text("Infinity"), &Type::Float64),
        Ok(Val::Float64(f64::INFINITY.to_bits()))
    );
    assert_eq!(
        deserialize_val(&text("-Infinity"), &Type::Float32),
        Ok(Val::Float32(f32::NEG_INFINITY.to_bits()))
    );
    assert_eq!(
        serialize_val(&Val::Float64(f64::NEG_INFINITY.to_bits())),
        Ok(text("-Infinity"))
    );
    assert_eq!(serialize_val(&Val::Float32(f32::INFINITY.to_bits())), Ok(text("Infinity")));
    assert_eq!(serialize_val(&Val::Float32(0xffc0_0001)), Ok(text("NaN")));
}

#[test]
fn floats_of_either_width() {
    assert_eq!(
        deserialize_val(&Document::Float64(1.5f64.to_bits()), &Type::Float32),
        Ok(Val::Float32(1.5f32.to_bits()))
    );
    assert_eq!(
        deserialize_val(&Document::Float64(0.1f64.to_bits()), &Type::Float32),
        Ok(Val::Float32(0.1f32.to_bits()))
    );
    assert_eq!(
        deserialize_val(&Document::Float32(0.1f32.to_bits()), &Type::Float64),
        Ok(Val::Float64((0.1f32 as f64).to_bits()))
    );
    assert_eq!(
        deserialize_val(&Document::Float32(0.1f32.to_bits()), &Type::Float32),
        Ok(Val::Float32(0.1f32.to_bits()))
    );
    assert_eq!(
        deserialize_val(&Document::Float64(0x7ff8_0000_0000_0001), &Type::Float64),
        Ok(Val::Float64(f64::NAN.to_bits()))
    );
    assert_eq!(
        serialize_val(&Val::Float32(0.1f32.to_bits())),
        Ok(Document::Float32(0.1f32.to_bits()))
    );
    assert_eq!(
        serialize_val(&Val::Float64((-0.0f64).to_bits())),
        Ok(Document::Float64((-0.0f64).to_bits()))
    );
}

#[test]
fn floats_take_no_integers_and_no_other_text() {
    assert_eq!(
        deserialize_val(&Document::Unsigned(1), &Type::Float32),
        Err(mismatch(Kind::Float32, TokenKind::Unsigned))
    );
    assert_eq!(
        deserialize_val(&Document::Signed(-1), &Type::Float64),
        Err(mismatch(Kind::Float64, TokenKind::Signed))
    );
    assert_eq!(
        deserialize_val(&text("1.5"), &Type::Float64),
        Err(mismatch(Kind::Float64, TokenKind::String))
    );
    assert_eq!(
        deserialize_val(&text("nan"), &Type::Float32),
        Err(mismatch(Kind::Float32, TokenKind::String))
    );
}

#[test]
fn sum_framing() {
    let doc = entries(vec![("a", Document::Unsigned(1)), ("b", Document::Unsigned(2))]);
    let arity = Err(DecodeError::ArityError { arity: 1, count: 2 });
    assert_eq!(deserialize_val(&doc, &variant_type()), arity);
    let other = Type::Variant(vec![("x".to_string(), None)]);
    assert_eq!(deserialize_val(&doc, &other), arity);
    assert_eq!(deserialize_val(&doc, &Type::Result(None, None)), arity);
    assert_eq!(
        deserialize_val(&doc, &Type::Result(Some(Box::new(Type::U8)), None)),
        arity
    );
    assert_eq!(deserialize_val(&doc, &option(option(Type::U8))), arity);

    let empty = entries(vec![]);
    assert_eq!(
        deserialize_val(&empty, &variant_type()),
        Err(DecodeError::ArityError { arity: 1, count: 0 })
    );
    assert_eq!(
        deserialize_val(&empty, &Type::Result(None, None)),
        Err(DecodeError::ArityError { arity: 1, count: 0 })
    );
}

#[test]
fn record_optional_defaulting() {
    let doc = entries(vec![("required", Document::Signed(1))]);
    let v = deserialize_val(&doc, &record_type()).unwrap();
    assert_eq!(
        v,
        Val::Record(vec![
            ("required".to_string(), Val::S32(1)),
            ("optional".to_string(), Val::Option(None)),
        ])
    );
    assert_eq!(serialize_val(&v).as_ref(), Ok(&doc));
    assert_eq!(to_value(&doc), json(r#"{"required": 1}"#));
}

#[test]
fn record_fields_in_any_order() {
    let doc = entries(vec![
        ("optional", Document::Unsigned(2)),
        ("required", Document::Unsigned(1)),
    ]);
    let v = deserialize_val(&doc, &record_type()).unwrap();
    assert_eq!(
        v,
        Val::Record(vec![
            ("required".to_string(), Val::S32(1)),
            ("optional".to_string(), some(Val::S32(2))),
        ])
    );
    assert_eq!(
        serialize_val(&v),
        Ok(entries(vec![
            ("required", Document::Signed(1)),
            ("optional", present(Document::Signed(2))),
        ]))
    );
}

#[test]
fn record_optional_given_as_absent() {
    let doc = entries(vec![
        ("required", Document::Unsigned(1)),
        ("optional", Document::Null),
    ]);
    let v = deserialize_val(&doc, &record_type()).unwrap();
    assert_eq!(
        v,
        Val::Record(vec![
            ("required".to_string(), Val::S32(1)),
            ("optional".to_string(), Val::Option(None)),
        ])
    );
    assert_eq!(
        serialize_val(&v),
        Ok(entries(vec![("required", Document::Signed(1))]))
    );
}

#[test]
fn record_errors() {
    let ty = record_type();
    assert_eq!(
        deserialize_val(&entries(vec![("other", Document::Unsigned(1))]), &ty),
        Err(DecodeError::UnknownField("other".to_string()))
    );
    assert_eq!(
        deserialize_val(
            &entries(vec![
                ("required", Document::Unsigned(1)),
                ("required", Document::Unsigned(2)),
            ]),
            &ty
        ),
        Err(DecodeError::DuplicateField("required".to_string()))
    );
    assert_eq!(
        deserialize_val(&entries(vec![("optional", Document::Unsigned(1))]), &ty),
        Err(DecodeError::MissingField("required".to_string()))
    );
    assert_eq!(
        deserialize_val(&entries(vec![]), &ty),
        Err(DecodeError::MissingField("required".to_string()))
    );
    assert_eq!(
        deserialize_val(&entries(vec![("required", text("x"))]), &ty),
        Err(mismatch(Kind::S32, TokenKind::String))
    );
    assert_eq!(
        deserialize_val(&Document::List(vec![]), &ty),
        Err(mismatch(Kind::Record, TokenKind::List))
    );
}

#[test]
fn record_errors_come_in_document_order() {
    let ty = record_type();
    // The value of the second entry fails before its key is seen to repeat.
    assert_eq!(
        deserialize_val(
            &entries(vec![("required", Document::Unsigned(1)), ("required", text("x"))]),
            &ty
        ),
        Err(mismatch(Kind::S32, TokenKind::String))
    );
    // An unknown key comes before a later duplicate.
    assert_eq!(
        deserialize_val(
            &entries(vec![
                ("required", Document::Unsigned(1)),
                ("what", Document::Null),
                ("required", Document::Unsigned(1)),
            ]),
            &ty
        ),
        Err(DecodeError::UnknownField("what".to_string()))
    );
    // Entries are judged before missing fields.
    assert_eq!(
        deserialize_val(
            &entries(vec![("optional", Document::Null), ("optional", Document::Null)]),
            &ty
        ),
        Err(DecodeError::DuplicateField("optional".to_string()))
    );
}

#[test]
fn nested_option_disambiguation() {
    let ty = option(option(Type::S32));
    let outer_absent = Document::Null;
    let inner_absent = entries(vec![("value", Document::Null)]);
    let both = entries(vec![("value", Document::Signed(2))]);

    let v = deserialize_val(&outer_absent, &ty).unwrap();
    assert_eq!(v, Val::Option(None));
    let written = serialize_val(&v).unwrap();
    assert_eq!(written, Document::Absent);
    assert_eq!(to_value(&written), json("null"));

    let v = deserialize_val(&inner_absent, &ty).unwrap();
    assert_eq!(v, some(Val::Option(None)));
    let written = serialize_val(&v).unwrap();
    assert_eq!(written, entries(vec![("value", Document::Absent)]));
    assert_eq!(to_value(&written), json(r#"{"value": null}"#));

    let v = deserialize_val(&both, &ty).unwrap();
    assert_eq!(v, some(some(Val::S32(2))));
    let written = serialize_val(&v).unwrap();
    assert_eq!(written, entries(vec![("value", present(Document::Signed(2)))]));
    assert_eq!(to_value(&written), json(r#"{"value": 2}"#));
}

#[test]
fn nested_option_reads_back_what_it_writes() {
    let ty = option(option(Type::S32));
    for v in [Val::Option(None), some(Val::Option(None)), some(some(Val::S32(2)))] {
        let written = serialize_val(&v).unwrap();
        assert_eq!(deserialize_val(&written, &ty), Ok(v));
    }
}

#[test]
fn option_markers() {
    let ty = option(Type::U8);
    assert_eq!(deserialize_val(&Document::Absent, &ty), Ok(Val::Option(None)));
    assert_eq!(deserialize_val(&Document::Null, &ty), Ok(Val::Option(None)));
    assert_eq!(
        deserialize_val(&present(Document::Unsigned(1)), &ty),
        Ok(some(Val::U8(1)))
    );
    assert_eq!(
        deserialize_val(&present(Document::Bool(true)), &ty),
        Err(mismatch(Kind::U8, TokenKind::Bool))
    );
    // A marker where no option is expected.
    assert_eq!(
        deserialize_val(&present(Document::Unsigned(1)), &Type::U8),
        Err(mismatch(Kind::U8, TokenKind::Present))
    );
    assert_eq!(
        deserialize_val(&Document::Absent, &Type::Bool),
        Err(mismatch(Kind::Bool, TokenKind::Absent))
    );
    // The payload of a case without one is the unit, not the absent marker.
    assert_eq!(
        deserialize_val(&entries(vec![("none", Document::Absent)]), &variant_type()),
        Err(mismatch(Kind::Unit, TokenKind::Absent))
    );
    // Under a marker, an option of an option is a frame.
    let nested = option(option(Type::U8));
    assert_eq!(deserialize_val(&Document::Absent, &nested), Ok(Val::Option(None)));
    assert_eq!(
        deserialize_val(&present(entries(vec![("value", Document::Unsigned(1))])), &nested),
        Ok(some(some(Val::U8(1))))
    );
    assert_eq!(
        deserialize_val(&present(Document::Unsigned(1)), &nested),
        Err(mismatch(Kind::Option, TokenKind::Unsigned))
    );
}

#[test]
fn nested_option_errors() {
    let ty = option(option(Type::S32));
    assert_eq!(
        deserialize_val(&Document::Signed(2), &ty),
        Err(mismatch(Kind::Option, TokenKind::Signed))
    );
    assert_eq!(
        deserialize_val(&entries(vec![("other", Document::Null)]), &ty),
        Err(DecodeError::UnknownField("other".to_string()))
    );
    assert_eq!(
        deserialize_val(&entries(vec![("value", text("x"))]), &ty),
        Err(mismatch(Kind::S32, TokenKind::String))
    );
}

#[test]
fn triple_option() {
    let ty = option(option(option(Type::Bool)));
    let doc = entries(vec![("value", entries(vec![("value", Document::Null)]))]);
    let v = deserialize_val(&doc, &ty).unwrap();
    assert_eq!(v, some(some(Val::Option(None))));
    let written = serialize_val(&v).unwrap();
    assert_eq!(
        written,
        entries(vec![("value", entries(vec![("value", Document::Absent)]))])
    );
    assert_eq!(to_value(&written), to_value(&doc));
    assert_eq!(deserialize_val(&written, &ty), Ok(v));

    let doc = entries(vec![("value", entries(vec![("value", Document::Bool(true))]))]);
    let v = deserialize_val(&doc, &ty).unwrap();
    assert_eq!(v, some(some(some(Val::Bool(true)))));
    let written = serialize_val(&v).unwrap();
    assert_eq!(
        written,
        entries(vec![("value", entries(vec![("value", present(Document::Bool(true)))]))])
    );
    assert_eq!(to_value(&written), to_value(&doc));
    assert_eq!(deserialize_val(&written, &ty), Ok(v));
}

#[test]
fn plain_option() {
    let ty = option(Type::String);
    assert_eq!(deserialize_val(&Document::Null, &ty), Ok(Val::Option(None)));
    assert_eq!(
        deserialize_val(&text("x"), &ty),
        Ok(some(Val::String("x".to_string())))
    );
    assert_eq!(
        deserialize_val(&Document::Bool(true), &ty),
        Err(mismatch(Kind::String, TokenKind::Bool))
    );
    assert_eq!(
        serialize_val(&some(Val::String("x".to_string()))),
        Ok(present(text("x")))
    );
    assert_eq!(serialize_val(&Val::Option(None)), Ok(Document::Absent));
}

#[test]
fn flags_order() {
    let doc = Document::List(vec![text("write"), text("read")]);
    let v = deserialize_val(&doc, &flags_type()).unwrap();
    assert_eq!(v, Val::Flags(vec!["read".to_string(), "write".to_string()]));
    assert_eq!(
        serialize_val(&v),
        Ok(Document::List(vec![text("read"), text("write")]))
    );
}

#[test]
fn flags_given_twice_are_active_once() {
    let doc = Document::List(vec![text("write"), text("write")]);
    assert_eq!(
        deserialize_val(&doc, &flags_type()),
        Ok(Val::Flags(vec!["write".to_string()]))
    );
    assert_eq!(
        deserialize_val(&Document::List(vec![]), &flags_type()),
        Ok(Val::Flags(vec![]))
    );
}

#[test]
fn flags_errors() {
    assert_eq!(
        deserialize_val(&Document::List(vec![text("read"), text("fly")]), &flags_type()),
        Err(DecodeError::HostConstructionError("fly".to_string()))
    );
    assert_eq!(
        deserialize_val(&Document::List(vec![Document::Unsigned(1)]), &flags_type()),
        Err(mismatch(Kind::String, TokenKind::Unsigned))
    );
    assert_eq!(
        deserialize_val(&text("read"), &flags_type()),
        Err(mismatch(Kind::Flags, TokenKind::String))
    );
    // A token that is no text comes before a name that is not declared.
    assert_eq!(
        deserialize_val(&Document::List(vec![text("fly"), Document::Null]), &flags_type()),
        Err(mismatch(Kind::String, TokenKind::Null))
    );
}

#[test]
fn host_makes_flags() {
    let declared = vec!["a".to_string(), "b".to_string(), "c".to_string()];
    assert_eq!(
        new_flags(&declared, &vec!["c".to_string(), "a".to_string()]),
        Ok(Val::Flags(vec!["a".to_string(), "c".to_string()]))
    );
    assert_eq!(
        new_flags(&declared, &vec!["c".to_string(), "d".to_string(), "e".to_string()]),
        Err(DecodeError::HostConstructionError("d".to_string()))
    );
}

#[test]
fn chars() {
    assert_eq!(deserialize_val(&text("x"), &Type::Char), Ok(Val::Char('x')));
    assert_eq!(deserialize_val(&text("☃"), &Type::Char), Ok(Val::Char('☃')));
    assert_eq!(deserialize_val(&Document::Char('y'), &Type::Char), Ok(Val::Char('y')));
    assert_eq!(
        deserialize_val(&text("xy"), &Type::Char),
        Err(DecodeError::InvalidChar("xy".to_string()))
    );
    assert_eq!(
        deserialize_val(&text(""), &Type::Char),
        Err(DecodeError::InvalidChar(String::new()))
    );
    assert_eq!(
        deserialize_val(&Document::Unsigned(120), &Type::Char),
        Err(mismatch(Kind::Char, TokenKind::Unsigned))
    );
    assert_eq!(serialize_val(&Val::Char('☃')), Ok(Document::Char('☃')));
}

#[test]
fn strings() {
    assert_eq!(
        deserialize_val(&text("☃☃☃"), &Type::String),
        Ok(Val::String("☃☃☃".to_string()))
    );
    assert_eq!(
        deserialize_val(&Document::Char('x'), &Type::String),
        Err(mismatch(Kind::String, TokenKind::Char))
    );
    assert_eq!(
        deserialize_val(&Document::Null, &Type::String),
        Err(mismatch(Kind::String, TokenKind::Null))
    );
    assert_eq!(serialize_val(&Val::String("xyz".to_string())), Ok(text("xyz")));
}

#[test]
fn bools() {
    assert_eq!(deserialize_val(&Document::Bool(true), &Type::Bool), Ok(Val::Bool(true)));
    assert_eq!(
        deserialize_val(&text("true"), &Type::Bool),
        Err(mismatch(Kind::Bool, TokenKind::String))
    );
    assert_eq!(
        deserialize_val(&Document::Unsigned(1), &Type::Bool),
        Err(mismatch(Kind::Bool, TokenKind::Unsigned))
    );
    assert_eq!(serialize_val(&Val::Bool(false)), Ok(Document::Bool(false)));
}

#[test]
fn integers_are_written_by_their_sign() {
    assert_eq!(serialize_val(&Val::S8(-3)), Ok(Document::Signed(-3)));
    assert_eq!(serialize_val(&Val::S16(3)), Ok(Document::Signed(3)));
    assert_eq!(serialize_val(&Val::S32(i32::MIN)), Ok(Document::Signed(i32::MIN as i64)));
    assert_eq!(serialize_val(&Val::S64(i64::MAX)), Ok(Document::Signed(i64::MAX)));
    assert_eq!(serialize_val(&Val::U8(255)), Ok(Document::Unsigned(255)));
    assert_eq!(serialize_val(&Val::U16(9)), Ok(Document::Unsigned(9)));
    assert_eq!(serialize_val(&Val::U32(u32::MAX)), Ok(Document::Unsigned(u32::MAX as u64)));
    assert_eq!(serialize_val(&Val::U64(u64::MAX)), Ok(Document::Unsigned(u64::MAX)));
}

#[test]
fn enums() {
    let ty = Type::Enum(vec!["first".to_string(), "second".to_string()]);
    assert_eq!(
        deserialize_val(&text("second"), &ty),
        Ok(Val::Enum("second".to_string()))
    );
    assert_eq!(
        deserialize_val(&text("third"), &ty),
        Err(DecodeError::UnknownCase("third".to_string()))
    );
    assert_eq!(
        deserialize_val(&Document::Unsigned(0), &ty),
        Err(mismatch(Kind::Enum, TokenKind::Unsigned))
    );
    assert_eq!(serialize_val(&Val::Enum("first".to_string())), Ok(text("first")));
}

#[test]
fn variants() {
    let ty = variant_type();
    let with = entries(vec![("a", Document::Signed(-7))]);
    let v = deserialize_val(&with, &ty).unwrap();
    assert_eq!(v, Val::Variant("a".to_string(), Some(Box::new(Val::S32(-7)))));
    assert_eq!(serialize_val(&v), Ok(with));

    let without = entries(vec![("none", Document::Null)]);
    let v = deserialize_val(&without, &ty).unwrap();
    assert_eq!(v, Val::Variant("none".to_string(), None));
    assert_eq!(serialize_val(&v), Ok(without));
}

#[test]
fn variant_errors() {
    let ty = variant_type();
    assert_eq!(
        deserialize_val(&entries(vec![("b", Document::Null)]), &ty),
        Err(DecodeError::UnknownCase("b".to_string()))
    );
    assert_eq!(
        deserialize_val(&entries(vec![("none", Document::Unsigned(1))]), &ty),
        Err(mismatch(Kind::Unit, TokenKind::Unsigned))
    );
    assert_eq!(
        deserialize_val(&entries(vec![("a", Document::Null)]), &ty),
        Err(mismatch(Kind::S32, TokenKind::Null))
    );
    assert_eq!(
        deserialize_val(&text("none"), &ty),
        Err(mismatch(Kind::Variant, TokenKind::String))
    );
}

#[test]
fn results() {
    let ty = Type::Result(Some(Box::new(Type::U8)), Some(Box::new(Type::String)));
    let ok = entries(vec![("result", Document::Unsigned(1))]);
    let v = deserialize_val(&ok, &ty).unwrap();
    assert_eq!(v, Val::Result(Ok(Some(Box::new(Val::U8(1))))));
    assert_eq!(serialize_val(&v), Ok(ok));

    let err = entries(vec![("error", text("bad"))]);
    let v = deserialize_val(&err, &ty).unwrap();
    assert_eq!(v, Val::Result(Err(Some(Box::new(Val::String("bad".to_string()))))));
    assert_eq!(serialize_val(&v), Ok(err));

    let bare = Type::Result(None, None);
    let ok = entries(vec![("result", Document::Null)]);
    let v = deserialize_val(&ok, &bare).unwrap();
    assert_eq!(v, Val::Result(Ok(None)));
    assert_eq!(serialize_val(&v), Ok(ok));
    let err = entries(vec![("error", Document::Null)]);
    let v = deserialize_val(&err, &bare).unwrap();
    assert_eq!(v, Val::Result(Err(None)));
    assert_eq!(serialize_val(&v), Ok(err));
}

#[test]
fn result_errors() {
    let ty = Type::Result(Some(Box::new(Type::U8)), None);
    assert_eq!(
        deserialize_val(&entries(vec![("ok", Document::Unsigned(1))]), &ty),
        Err(DecodeError::UnknownCase("ok".to_string()))
    );
    assert_eq!(
        deserialize_val(&entries(vec![("error", Document::Unsigned(1))]), &ty),
        Err(mismatch(Kind::Unit, TokenKind::Unsigned))
    );
    assert_eq!(
        deserialize_val(&entries(vec![("result", Document::Null)]), &ty),
        Err(mismatch(Kind::U8, TokenKind::Null))
    );
    assert_eq!(
        deserialize_val(&Document::Null, &ty),
        Err(mismatch(Kind::Result, TokenKind::Null))
    );
}

#[test]
fn lists() {
    let ty = Type::List(Box::new(Type::U16));
    let doc = Document::List(vec![Document::Unsigned(1), text("2"), Document::Signed(3)]);
    let v = deserialize_val(&doc, &ty).unwrap();
    assert_eq!(v, Val::List(vec![Val::U16(1), Val::U16(2), Val::U16(3)]));
    assert_eq!(
        serialize_val(&v),
        Ok(Document::List(vec![
            Document::Unsigned(1),
            Document::Unsigned(2),
            Document::Unsigned(3),
        ]))
    );
    assert_eq!(deserialize_val(&Document::List(vec![]), &ty), Ok(Val::List(vec![])));
    assert_eq!(
        deserialize_val(
            &Document::List(vec![Document::Unsigned(1), Document::Bool(true), text("x")]),
            &ty
        ),
        Err(mismatch(Kind::U16, TokenKind::Bool))
    );
    assert_eq!(
        deserialize_val(&Document::Unsigned(1), &ty),
        Err(mismatch(Kind::List, TokenKind::Unsigned))
    );
}

#[test]
fn byte_strings() {
    let bytes = Document::Bytes(vec![1, 2, 255]);
    assert_eq!(
        deserialize_val(&bytes, &Type::List(Box::new(Type::U8))),
        Ok(Val::List(vec![Val::U8(1), Val::U8(2), Val::U8(255)]))
    );
    assert_eq!(
        deserialize_val(&bytes, &Type::List(Box::new(Type::U16))),
        Err(mismatch(Kind::List, TokenKind::Bytes))
    );
    assert_eq!(
        deserialize_val(&bytes, &Type::String),
        Err(mismatch(Kind::String, TokenKind::Bytes))
    );
    assert_eq!(
        DeserializeVal(&Type::List(Box::new(Type::U8))).visit_bytes(&[7, 8]),
        Ok(Val::List(vec![Val::U8(7), Val::U8(8)]))
    );
}

#[test]
fn tuples() {
    let ty = Type::Tuple(vec![Type::Bool, Type::S8]);
    let doc = Document::List(vec![Document::Bool(true), Document::Signed(-1)]);
    let v = deserialize_val(&doc, &ty).unwrap();
    assert_eq!(v, Val::Tuple(vec![Val::Bool(true), Val::S8(-1)]));
    assert_eq!(serialize_val(&v), Ok(doc));
    assert_eq!(
        deserialize_val(&Document::List(vec![]), &Type::Tuple(vec![])),
        Ok(Val::Tuple(vec![]))
    );
}

#[test]
fn tuple_arity() {
    let ty = Type::Tuple(vec![Type::Bool, Type::S8]);
    assert_eq!(
        deserialize_val(&Document::List(vec![Document::Bool(true)]), &ty),
        Err(DecodeError::ArityError { arity: 2, count: 1 })
    );
    assert_eq!(
        deserialize_val(
            &Document::List(vec![
                Document::Bool(true),
                Document::Signed(1),
                Document::Signed(2),
            ]),
            &ty
        ),
        Err(DecodeError::ArityError { arity: 2, count: 3 })
    );
    assert_eq!(
        deserialize_val(&Document::List(vec![]), &ty),
        Err(DecodeError::ArityError { arity: 2, count: 0 })
    );
    // An element that does not decode comes before the count.
    assert_eq!(
        deserialize_val(&Document::List(vec![Document::Signed(1)]), &ty),
        Err(mismatch(Kind::Bool, TokenKind::Signed))
    );
    assert_eq!(
        deserialize_val(
            &Document::List(vec![Document::Bool(true), text("x"), Document::Null]),
            &ty
        ),
        Err(mismatch(Kind::S8, TokenKind::String))
    );
}

#[test]
fn resources() {
    assert_eq!(
        serialize_val(&Val::Resource(3)),
        Err(EncodeError::UnsupportedValue)
    );
    assert_eq!(
        serialize_val(&Val::List(vec![Val::U8(1), Val::Resource(3)])),
        Err(EncodeError::UnsupportedValue)
    );
    assert_eq!(
        serialize_val(&Val::Record(vec![("r".to_string(), some(Val::Resource(0)))])),
        Err(EncodeError::UnsupportedValue)
    );
    assert_eq!(
        serialize_val(&Val::Variant("c".to_string(), Some(Box::new(Val::Resource(0))))),
        Err(EncodeError::UnsupportedValue)
    );
    assert_eq!(
        serialize_val(&some(some(Val::Resource(0)))),
        Err(EncodeError::UnsupportedValue)
    );
    assert_eq!(
        serialize_val(&Val::Result(Err(Some(Box::new(Val::Resource(0)))))),
        Err(EncodeError::UnsupportedValue)
    );
    assert_eq!(
        deserialize_val(&Document::Unsigned(3), &Type::Resource),
        Err(mismatch(Kind::Resource, TokenKind::Unsigned))
    );
    assert_eq!(
        deserialize_val(&Document::Null, &Type::Resource),
        Err(mismatch(Kind::Resource, TokenKind::Null))
    );
}

#[test]
fn hints() {
    assert_eq!(DeserializeVal(&Type::Bool).hint(), Hint::Bool);
    assert_eq!(DeserializeVal(&Type::Char).hint(), Hint::Char);
    assert_eq!(DeserializeVal(&Type::String).hint(), Hint::String);
    assert_eq!(DeserializeVal(&Type::List(Box::new(Type::U8))).hint(), Hint::Sequence);
    assert_eq!(DeserializeVal(&record_type()).hint(), Hint::Entries);
    assert_eq!(
        DeserializeVal(&Type::Tuple(vec![Type::U8, Type::U8, Type::U8])).hint(),
        Hint::Tuple(3)
    );
    assert_eq!(DeserializeVal(&variant_type()).hint(), Hint::Entries);
    assert_eq!(DeserializeVal(&Type::Enum(vec![])).hint(), Hint::Name);
    assert_eq!(DeserializeVal(&option(Type::U8)).hint(), Hint::Option);
    assert_eq!(DeserializeVal(&option(option(Type::U8))).hint(), Hint::Any);
    assert_eq!(DeserializeVal(&Type::Result(None, None)).hint(), Hint::Entries);
    assert_eq!(DeserializeVal(&flags_type()).hint(), Hint::Sequence);
    assert_eq!(DeserializeVal(&Type::U64).hint(), Hint::Any);
    assert_eq!(DeserializeVal(&Type::Float32).hint(), Hint::Any);
    assert_eq!(DeserializeVal(&Type::Resource).hint(), Hint::Any);
}

#[test]
fn how_documents_below_are_asked_for() {
    let list = Type::List(Box::new(Type::U8));
    assert_eq!(DeserializeVal(&list).element(0), Child::Typed(&Type::U8));
    assert_eq!(DeserializeVal(&list).element(1000), Child::Typed(&Type::U8));
    let tuple = Type::Tuple(vec![Type::Bool, Type::S8]);
    assert_eq!(DeserializeVal(&tuple).element(1), Child::Typed(&Type::S8));
    assert_eq!(DeserializeVal(&tuple).element(2), Child::Any);
    assert_eq!(DeserializeVal(&flags_type()).element(0), Child::Text);
    assert_eq!(DeserializeVal(&Type::Bool).element(0), Child::Any);

    let record = record_type();
    assert_eq!(DeserializeVal(&record).entry("required"), Child::Typed(&Type::S32));
    assert_eq!(DeserializeVal(&record).entry("optional"), Child::Typed(&option(Type::S32)));
    assert_eq!(DeserializeVal(&record).entry("other"), Child::Any);
    let variant = variant_type();
    assert_eq!(DeserializeVal(&variant).entry("a"), Child::Typed(&Type::S32));
    assert_eq!(DeserializeVal(&variant).entry("none"), Child::Unit);
    assert_eq!(DeserializeVal(&variant).entry("b"), Child::Any);
    let result = Type::Result(Some(Box::new(Type::U8)), None);
    assert_eq!(DeserializeVal(&result).entry("result"), Child::Typed(&Type::U8));
    assert_eq!(DeserializeVal(&result).entry("error"), Child::Unit);
    assert_eq!(DeserializeVal(&result).entry("ok"), Child::Any);
    let nested = option(option(Type::U8));
    assert_eq!(DeserializeVal(&nested).entry("value"), Child::Typed(&option(Type::U8)));
    assert_eq!(DeserializeVal(&nested).entry("other"), Child::Any);
    assert_eq!(DeserializeVal(&Type::String).entry("value"), Child::Any);

    assert_eq!(
        DeserializeVal(&nested).present(),
        Child::Hinted(&option(Type::U8), Hint::Entries)
    );
    assert_eq!(
        DeserializeVal(&option(Type::U8)).present(),
        Child::Hinted(&Type::U8, Hint::Any)
    );
    assert_eq!(DeserializeVal(&Type::U8).present(), Child::Any);
}

#[test]
fn probing_an_option() {
    let seed_ty = option(Type::U8);
    let seed = DeserializeVal(&seed_ty);
    // Probed, what is present cannot be told from what is absent.
    assert_eq!(
        seed.deserialize_any(&Document::Unsigned(1)),
        Err(mismatch(Kind::Option, TokenKind::Unsigned))
    );
    assert_eq!(seed.deserialize_any(&Document::Null), Ok(Val::Option(None)));
    assert_eq!(
        seed.deserialize_any(&entries(vec![("value", Document::Unsigned(1))])),
        Ok(some(Val::U8(1)))
    );
    // Asked for an option, it can.
    assert_eq!(seed.deserialize(&Document::Unsigned(1)), Ok(some(Val::U8(1))));
    assert_eq!(seed.visit_some(&Document::Unsigned(1)), Ok(some(Val::U8(1))));
    assert_eq!(seed.visit_none(), Ok(Val::Option(None)));
    assert_eq!(seed.visit_unit(), Ok(Val::Option(None)));
    assert_eq!(
        DeserializeVal(&Type::U8).visit_some(&Document::Unsigned(1)),
        Err(mismatch(Kind::U8, TokenKind::Present))
    );
    assert_eq!(
        DeserializeVal(&Type::U8).visit_none(),
        Err(mismatch(Kind::U8, TokenKind::Absent))
    );
    assert_eq!(
        DeserializeVal(&Type::U8).visit_unit(),
        Err(mismatch(Kind::U8, TokenKind::Null))
    );
}

#[test]
fn present_option_of_an_option() {
    let ty = option(option(Type::U8));
    let seed = DeserializeVal(&ty);
    assert_eq!(
        seed.visit_some(&entries(vec![("value", Document::Unsigned(1))])),
        Ok(some(some(Val::U8(1))))
    );
    assert_eq!(
        seed.visit_some(&Document::Unsigned(1)),
        Err(mismatch(Kind::Option, TokenKind::Unsigned))
    );
}

#[test]
fn visitor_methods() {
    assert_eq!(DeserializeVal(&Type::Bool).visit_bool(true), Ok(Val::Bool(true)));
    assert_eq!(DeserializeVal(&Type::S16).visit_i64(-300), Ok(Val::S16(-300)));
    assert_eq!(DeserializeVal(&Type::U32).visit_u64(300), Ok(Val::U32(300)));
    assert_eq!(
        DeserializeVal(&Type::U16).visit_i64(-1),
        Err(DecodeError::RangeError { expected: Kind::U16, value: Number::Signed(-1) })
    );
    assert_eq!(
        DeserializeVal(&Type::Float32).visit_f64(2.5f64.to_bits()),
        Ok(Val::Float32(2.5f32.to_bits()))
    );
    assert_eq!(
        DeserializeVal(&Type::Float64).visit_f32(2.5f32.to_bits()),
        Ok(Val::Float64(2.5f64.to_bits()))
    );
    assert_eq!(DeserializeVal(&Type::Char).visit_char('c'), Ok(Val::Char('c')));
    assert_eq!(DeserializeVal(&Type::U8).visit_str("12"), Ok(Val::U8(12)));
    assert_eq!(
        DeserializeVal(&Type::String).visit_string("owned".to_string()),
        Ok(Val::String("owned".to_string()))
    );
    assert_eq!(
        DeserializeVal(&Type::S8).visit_string("-12".to_string()),
        Ok(Val::S8(-12))
    );
    assert_eq!(
        DeserializeVal(&Type::Bool).visit_seq(&vec![]),
        Err(mismatch(Kind::Bool, TokenKind::List))
    );
    assert_eq!(
        DeserializeVal(&Type::Bool).visit_map(&vec![]),
        Err(mismatch(Kind::Bool, TokenKind::Entries))
    );
    assert_eq!(
        DeserializeVal(&Type::Bool).visit_bytes(&[]),
        Err(mismatch(Kind::Bool, TokenKind::Bytes))
    );
}

#[test]
fn finding_names() {
    let names = vec!["a".to_string(), "b".to_string(), "a".to_string()];
    assert!(contains_name(&names, "b"));
    assert!(!contains_name(&names, "c"));
    let fields = vec![
        ("x".to_string(), Type::U8),
        ("y".to_string(), Type::U8),
        ("x".to_string(), Type::Bool),
    ];
    assert_eq!(find_field(&fields, "x"), Some(0));
    assert_eq!(find_field(&fields, "y"), Some(1));
    assert_eq!(find_field(&fields, "z"), None);
    let cases = vec![("p".to_string(), None), ("q".to_string(), Some(Type::U8))];
    assert_eq!(find_case(&cases, "q"), Some(1));
    assert_eq!(find_case(&cases, ""), None);
}

#[test]
fn framing_helpers() {
    let one = vec![("k".to_string(), Document::Null)];
    assert_eq!(
        wasmtime_component_serde::de::single_entry_map(&one),
        Ok((&"k".to_string(), &Document::Null))
    );
    let two = vec![
        ("k".to_string(), Document::Null),
        ("l".to_string(), Document::Null),
    ];
    assert_eq!(
        wasmtime_component_serde::de::single_entry_map(&two),
        Err(DecodeError::ArityError { arity: 1, count: 2 })
    );
    assert_eq!(
        wasmtime_component_serde::ser::single_entry_map("k", Some(&Val::U8(1))),
        Ok(entries(vec![("k", Document::Unsigned(1))]))
    );
    assert_eq!(
        wasmtime_component_serde::ser::single_entry_map("k", None),
        Ok(entries(vec![("k", Document::Null)]))
    );
    assert_eq!(
        wasmtime_component_serde::ser::single_entry_map("k", Some(&Val::Resource(1))),
        Err(EncodeError::UnsupportedValue)
    );
    assert_eq!(
        next_value_maybe(Some(&Type::Bool), &Document::Bool(true)),
        Ok(Some(Box::new(Val::Bool(true))))
    );
    assert_eq!(next_value_maybe(None, &Document::Null), Ok(None));
    assert_eq!(
        next_value_maybe(None, &Document::Bool(true)),
        Err(mismatch(Kind::Unit, TokenKind::Bool))
    );
}

#[test]
fn records_directly() {
    let fields = vec![
        ("a".to_string(), option(Type::U8)),
        ("b".to_string(), Type::Bool),
    ];
    let given = vec![("b".to_string(), Document::Bool(false))];
    assert_eq!(
        decode_record(&fields, &given),
        Ok(Val::Record(vec![
            ("a".to_string(), Val::Option(None)),
            ("b".to_string(), Val::Bool(false)),
        ]))
    );
}

#[test]
fn kinds() {
    assert_eq!(Type::Bool.kind(), Kind::Bool);
    assert_eq!(record_type().kind(), Kind::Record);
    assert_eq!(option(Type::U8).kind(), Kind::Option);
    assert_eq!(Type::Resource.kind(), Kind::Resource);
    assert_eq!(Document::Null.kind(), TokenKind::Null);
    assert_eq!(Document::Bytes(vec![]).kind(), TokenKind::Bytes);
    assert_eq!(entries(vec![]).kind(), TokenKind::Entries);
}

#[test]
fn deep_round_trip() {
    let ty = Type::List(Box::new(Type::Record(vec![
        ("id".to_string(), Type::U64),
        ("tags".to_string(), flags_type()),
        ("shape".to_string(), variant_type()),
        ("note".to_string(), option(Type::String)),
        ("pair".to_string(), Type::Tuple(vec![Type::Float32, Type::Char])),
    ])));
    let v = Val::List(vec![
        Val::Record(vec![
            ("id".to_string(), Val::U64(u64::MAX)),
            ("tags".to_string(), Val::Flags(vec!["write".to_string()])),
            ("shape".to_string(), Val::Variant("none".to_string(), None)),
            ("note".to_string(), Val::Option(None)),
            (
                "pair".to_string(),
                Val::Tuple(vec![Val::Float32(f32::NAN.to_bits()), Val::Char('c')]),
            ),
        ]),
        Val::Record(vec![
            ("id".to_string(), Val::U64(0)),
            ("tags".to_string(), Val::Flags(vec![])),
            (
                "shape".to_string(),
                Val::Variant("a".to_string(), Some(Box::new(Val::S32(-1)))),
            ),
            ("note".to_string(), some(Val::String("n".to_string()))),
            (
                "pair".to_string(),
                Val::Tuple(vec![Val::Float32(0.25f32.to_bits()), Val::Char('☃')]),
            ),
        ]),
    ]);
    let doc = SerializeVal(&v).serialize().unwrap();
    assert_eq!(deserialize_val(&doc, &ty), Ok(v));
}

#[test]
fn same_input_same_output() {
    let ty = record_type();
    let doc = entries(vec![("required", text("12"))]);
    let first = deserialize_val(&doc, &ty);
    let second = deserialize_val(&doc, &ty);
    assert_eq!(first, second);
    let v = first.unwrap();
    assert_eq!(serialize_val(&v), serialize_val(&v));
}

#[test]
fn plain_documents_are_written_in_normal_form() {
    let ty = Type::List(Box::new(Type::Record(vec![
        ("id".to_string(), Type::U64),
        ("note".to_string(), option(Type::String)),
        ("inner".to_string(), option(option(Type::S8))),
        ("tags".to_string(), flags_type()),
    ])));
    let doc = Document::List(vec![
        entries(vec![
            ("tags", Document::List(vec![text("read"), text("write")])),
            ("note", Document::Absent),
            ("inner", entries(vec![("value", present(Document::Signed(-1)))])),
            ("id", Document::Unsigned(7)),
        ]),
        entries(vec![
            ("note", present(text("n"))),
            ("id", Document::Unsigned(8)),
            ("inner", Document::Null),
            ("tags", Document::List(vec![])),
        ]),
    ]);
    let normal = Document::List(vec![
        entries(vec![
            ("id", Document::Unsigned(7)),
            ("inner", entries(vec![("value", present(Document::Signed(-1)))])),
            ("tags", Document::List(vec![text("read"), text("write")])),
        ]),
        entries(vec![
            ("id", Document::Unsigned(8)),
            ("note", present(text("n"))),
            ("tags", Document::List(vec![])),
        ]),
    ]);
    let v = deserialize_val(&doc, &ty).unwrap();
    assert_eq!(serialize_val(&v).as_ref(), Ok(&normal));
    // A document in normal form is written as it was read.
    let v = deserialize_val(&normal, &ty).unwrap();
    assert_eq!(serialize_val(&v), Ok(normal));
}

#[test]
fn native_tokens_are_written_as_the_encoder_writes_them() {
    let ty = Type::Tuple(vec![
        Type::S32,
        Type::U8,
        Type::Float32,
        Type::Float64,
        Type::Char,
        option(Type::S32),
        option(Type::S32),
        option(option(Type::S32)),
        Type::Float32,
    ]);
    let doc = Document::List(vec![
        Document::Unsigned(1),
        Document::Signed(2),
        Document::Float64(0.1f64.to_bits()),
        Document::Float32(0.5f32.to_bits()),
        text("c"),
        Document::Unsigned(3),
        Document::Null,
        Document::Null,
        Document::Float64(1e300f64.to_bits()),
    ]);
    let normal = Document::List(vec![
        Document::Signed(1),
        Document::Unsigned(2),
        Document::Float32(0.1f32.to_bits()),
        Document::Float64(0.5f64.to_bits()),
        Document::Char('c'),
        present(Document::Signed(3)),
        Document::Absent,
        Document::Absent,
        text("Infinity"),
    ]);
    let v = deserialize_val(&doc, &ty).unwrap();
    assert_eq!(serialize_val(&v).as_ref(), Ok(&normal));
    let v = deserialize_val(&normal, &ty).unwrap();
    assert_eq!(serialize_val(&v), Ok(normal));
}

#[test]
fn written_documents_are_in_normal_form() {
    let ty = Type::Tuple(vec![record_type(), flags_type(), Type::U8]);
    let doc = Document::List(vec![
        entries(vec![("optional", Document::Null), ("required", text("-4"))]),
        Document::List(vec![text("write"), text("read"), text("write")]),
        text("9"),
    ]);
    let v = deserialize_val(&doc, &ty).unwrap();
    let normal = serialize_val(&v).unwrap();
    assert_eq!(
        normal,
        Document::List(vec![
            entries(vec![("required", Document::Signed(-4))]),
            Document::List(vec![text("read"), text("write")]),
            Document::Unsigned(9),
        ])
    );
    assert_eq!(deserialize_val(&normal, &ty).as_ref(), Ok(&v));
    assert_eq!(serialize_val(&v), Ok(normal));
}
