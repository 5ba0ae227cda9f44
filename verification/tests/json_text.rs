use dora_test_utils::{number_text, to_row, to_rows, FiniteDouble, JsonValue, Number};

fn double(x: f64) -> Number {
    Number::Float(FiniteDouble::from_bits(x.to_bits()).unwrap())
}

#[test]
fn text_is_what_serde_json_writes() {
    let value = JsonValue::Object(vec![
        ("a".to_string(), JsonValue::Array(vec![JsonValue::Null, JsonValue::Bool(true)])),
        ("b\"\\".to_string(), JsonValue::String("\u{8}\t\n\u{c}\r\u{1f}\u{7f}é".to_string())),
        ("c".to_string(), JsonValue::Number(Number::NegInt(i64::MIN))),
        ("d".to_string(), JsonValue::Number(Number::PosInt(u64::MAX))),
        ("e".to_string(), JsonValue::Number(double(-1.5e-7))),
        ("f".to_string(), JsonValue::Bool(false)),
        ("g".to_string(), JsonValue::Array(vec![])),
        ("h".to_string(), JsonValue::Object(vec![])),
    ]);
    let text = value.to_text();
    let parsed: serde_json::Value = serde_json::from_str(&text).unwrap();
    assert_eq!(parsed.to_string(), text);
    assert_eq!(
        text,
        "{\"a\":[null,true],\"b\\\"\\\\\":\"\\b\\t\\n\\f\\r\\u001f\u{7f}é\",\
         \"c\":-9223372036854775808,\"d\":18446744073709551615,\"e\":-1.5e-7,\
         \"f\":false,\"g\":[],\"h\":{}}"
    );
}

#[test]
fn numbers_are_written_in_full() {
    assert_eq!(number_text(&Number::PosInt(0)), "0");
    assert_eq!(number_text(&Number::PosInt(1000)), "1000");
    assert_eq!(number_text(&Number::NegInt(-42)), "-42");
    assert_eq!(number_text(&double(42.5)), "42.5");
    assert_eq!(number_text(&double(2.0)), "2.0");
}

#[test]
fn doubles_are_finite() {
    assert!(FiniteDouble::from_bits(f64::INFINITY.to_bits()).is_none());
    assert!(FiniteDouble::from_bits(f64::NEG_INFINITY.to_bits()).is_none());
    assert!(FiniteDouble::from_bits(f64::NAN.to_bits()).is_none());
    let largest = FiniteDouble::from_bits(f64::MAX.to_bits()).unwrap();
    assert_eq!(largest.bits(), f64::MAX.to_bits());
}

#[test]
fn integers_are_told_from_doubles() {
    assert_eq!(Number::PosInt(7).as_i64(), Some(7));
    assert_eq!(Number::PosInt(u64::MAX).as_i64(), None);
    assert_eq!(Number::PosInt(u64::MAX).as_u64(), Some(u64::MAX));
    assert_eq!(Number::NegInt(-7).as_i64(), Some(-7));
    assert_eq!(Number::NegInt(-7).as_u64(), None);
    assert_eq!(double(7.0).as_i64(), None);
    assert!(double(7.0).is_f64());
    assert!(!Number::PosInt(7).is_f64());
}

#[test]
fn rows_are_one_line_each() {
    let items = vec![
        JsonValue::String("a\nb".to_string()),
        JsonValue::Null,
        JsonValue::Number(Number::PosInt(3)),
    ];
    let rows = to_rows("data", &items);
    assert_eq!(rows, "{\"data\":\"a\\nb\"}\n{\"data\":null}\n{\"data\":3}");
    assert_eq!(rows.lines().count(), items.len());
    assert_eq!(to_rows("data", &vec![]), "");
    assert_eq!(to_row("data", &JsonValue::Bool(true)), "{\"data\":true}");
}

#[test]
fn members_are_found_by_name() {
    let value = JsonValue::Object(vec![
        ("id".to_string(), JsonValue::Bool(true)),
        ("data".to_string(), JsonValue::Null),
    ]);
    assert!(matches!(value.get("id"), Some(JsonValue::Bool(true))));
    assert!(matches!(value.get("data"), Some(JsonValue::Null)));
    assert!(value.get("other").is_none());
    assert!(JsonValue::Null.get("id").is_none());
}

#[test]
fn clones_have_the_same_text() {
    let value = JsonValue::Object(vec![
        ("a".to_string(), JsonValue::Array(vec![JsonValue::Null, JsonValue::Bool(true)])),
        ("b".to_string(), JsonValue::Number(Number::NegInt(-1))),
        ("c".to_string(), JsonValue::String("x".to_string())),
    ]);
    let copy = value.clone();
    assert_eq!(copy.to_text(), value.to_text());
    assert_eq!(copy.to_text(), "{\"a\":[null,true],\"b\":-1,\"c\":\"x\"}");
}
