use serde_json::Value;
use wasmtime_component_serde::{Document, SerializeVal, Val};

#[test]
fn ser_basic_types_smoke_tests() {
    assert_val_json(Val::Bool(true), "true");
    assert_val_json(Val::U16(123), "123");
    assert_val_json(Val::S32(-123456), "-123456");
    assert_val_json(Val::Float32(1.5f32.to_bits()), "1.5");
    assert_val_json(Val::Float32(f32::INFINITY.to_bits()), r#""Infinity""#);
    assert_val_json(Val::Float32(f32::NEG_INFINITY.to_bits()), r#""-Infinity""#);
    assert_val_json(Val::Float32(f32::NAN.to_bits()), r#""NaN""#);
    assert_val_json(Val::Float64(1.5f64.to_bits()), "1.5");
    assert_val_json(Val::Char('☃'), r#""☃""#);
    assert_val_json(Val::String("☃☃☃".into()), r#""☃☃☃""#);
}

fn assert_val_json(val: Val, json: &str) {
    let expected: Value = serde_json::from_str(json).unwrap();
    let serialized = SerializeVal(&val).serialize().unwrap();
    assert_eq!(to_value(&serialized), expected);
}

fn to_value(doc: &Document) -> Value {
    match doc {
        Document::Null | Document::Absent => Value::Null,
        Document::Present(inner) => to_value(inner),
        Document::Bool(b) => Value::Bool(*b),
        Document::Signed(n) => Value::from(*n),
        Document::Unsigned(n) => Value::from(*n),
        Document::Float32(bits) => Value::from(f32::from_bits(*bits)),
        Document::Float64(bits) => Value::from(f64::from_bits(*bits)),
        Document::Char(c) => Value::String(c.to_string()),
        Document::String(s) => Value::String(s.clone()),
        Document::Bytes(bytes) => Value::Array(bytes.iter().map(|b| Value::from(*b)).collect()),
        Document::List(items) => Value::Array(items.iter().map(to_value).collect()),
        Document::Entries(entries) => Value::Object(
            entries.iter().map(|(k, v)| (k.clone(), to_value(v))).collect(),
        ),
    }
}
