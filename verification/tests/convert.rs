use arrow::array::{make_array, Array, ArrayRef, StructArray};
use dora_test_utils::{
    array_element_type, check_merged, convert_value, find_plain, is_convertible, json_value_to_arrow_array,
    merge_read, number_to_arrow_array, parse_data_type, ConvertError, DataType, DecodeError, FiniteDouble, JsonValue,
    Misfit, Number, PlainType,
};

fn integer(n: i64) -> JsonValue {
    if n >= 0 {
        JsonValue::Number(Number::PosInt(n as u64))
    } else {
        JsonValue::Number(Number::NegInt(n))
    }
}

fn uint(n: u64) -> JsonValue {
    JsonValue::Number(Number::PosInt(n))
}

fn double(x: f64) -> JsonValue {
    JsonValue::Number(Number::Float(FiniteDouble::from_bits(x.to_bits()).unwrap()))
}

fn text(s: &str) -> JsonValue {
    JsonValue::String(s.to_string())
}

fn object(members: Vec<(&str, JsonValue)>) -> JsonValue {
    JsonValue::Object(members.into_iter().map(|(k, v)| (k.to_string(), v)).collect())
}

fn field(name: &str, data_type: JsonValue) -> JsonValue {
    object(vec![
        ("name", text(name)),
        ("data_type", data_type),
        ("nullable", JsonValue::Bool(true)),
        ("dict_id", integer(0)),
        ("dict_is_ordered", JsonValue::Bool(false)),
        ("metadata", object(vec![])),
    ])
}

fn required(name: &str, data_type: JsonValue) -> JsonValue {
    object(vec![
        ("name", text(name)),
        ("data_type", data_type),
        ("nullable", JsonValue::Bool(false)),
        ("dict_id", integer(0)),
        ("dict_is_ordered", JsonValue::Bool(false)),
        ("metadata", object(vec![])),
    ])
}

fn array_of(value: &JsonValue, hint: Option<&DataType>) -> ArrayRef {
    make_array(json_value_to_arrow_array(value, hint).unwrap())
}

/// The one column of the structures that a JSON array becomes.
fn column_of(value: &JsonValue, hint: Option<&DataType>) -> ArrayRef {
    let array = array_of(value, hint);
    let rows = array.as_any().downcast_ref::<StructArray>().expect("should be StructArray");
    assert_eq!(rows.column_names(), vec!["data"]);
    assert!(rows.fields()[0].is_nullable());
    assert_eq!(rows.null_count(), 0);
    assert_eq!(rows.len(), rows.column(0).len());
    rows.column(0).clone()
}

fn message_of(value: &JsonValue, hint: Option<&DataType>) -> String {
    json_value_to_arrow_array(value, hint).unwrap_err().message()
}

#[test]
fn test_json_to_arrow_int64() {
    let arr = array_of(&integer(42), None);
    assert_eq!(arr.len(), 1);
    let int_arr = arr
        .as_any()
        .downcast_ref::<arrow::array::Int64Array>()
        .expect("should be Int64Array");
    assert_eq!(int_arr.value(0), 42);
}

#[test]
fn test_json_to_arrow_float64() {
    let arr = array_of(&double(std::f64::consts::PI), None);
    assert_eq!(arr.len(), 1);
    let float_arr = arr
        .as_any()
        .downcast_ref::<arrow::array::Float64Array>()
        .expect("should be Float64Array");
    assert!((float_arr.value(0) - std::f64::consts::PI).abs() < 0.001);
    assert_eq!(float_arr.value(0), std::f64::consts::PI);
}

#[test]
fn test_json_to_arrow_string() {
    let arr = array_of(&text("hello"), None);
    assert_eq!(arr.len(), 1);
    let str_arr = arr
        .as_any()
        .downcast_ref::<arrow::array::StringArray>()
        .expect("should be StringArray");
    assert_eq!(str_arr.value(0), "hello");
}

#[test]
fn test_json_to_arrow_bool() {
    let arr = array_of(&JsonValue::Bool(true), None);
    assert_eq!(arr.len(), 1);
    let bool_arr = arr
        .as_any()
        .downcast_ref::<arrow::array::BooleanArray>()
        .expect("should be BooleanArray");
    assert!(bool_arr.value(0));
}

#[test]
fn test_json_to_arrow_int32() {
    let dt = DataType::Plain(PlainType::Int32);
    let arr = array_of(&integer(42), Some(&dt));
    let int_arr = arr
        .as_any()
        .downcast_ref::<arrow::array::Int32Array>()
        .expect("should be Int32Array from Int32 hint");
    assert_eq!(int_arr.value(0), 42);
}

#[test]
fn test_json_to_arrow_int8() {
    let dt = DataType::Plain(PlainType::Int8);
    let arr = array_of(&integer(100), Some(&dt));
    let int_arr = arr
        .as_any()
        .downcast_ref::<arrow::array::Int8Array>()
        .expect("should be Int8Array from Int8 hint");
    assert_eq!(int_arr.value(0), 100);
}

#[test]
fn test_json_to_arrow_uint8() {
    let dt = DataType::Plain(PlainType::UInt8);
    let arr = array_of(&integer(255), Some(&dt));
    let uint_arr = arr
        .as_any()
        .downcast_ref::<arrow::array::UInt8Array>()
        .expect("should be UInt8Array from UInt8 hint");
    assert_eq!(uint_arr.value(0), 255);
}

#[test]
fn test_json_to_arrow_uint8_overflow() {
    let dt = DataType::Plain(PlainType::UInt8);
    // 256 is out of range for u8
    let result = json_value_to_arrow_array(&integer(256), Some(&dt));
    assert!(result.is_err());
    assert!(
        result.unwrap_err().message().contains("out of range for UInt8"),
        "error should mention out of range"
    );
}

#[test]
fn test_json_to_arrow_uint8_negative() {
    let dt = DataType::Plain(PlainType::UInt8);
    // Negative numbers cannot be represented as unsigned
    let result = json_value_to_arrow_array(&integer(-1), Some(&dt));
    assert!(result.is_err());
}

#[test]
fn test_json_to_arrow_float32() {
    let dt = DataType::Plain(PlainType::Float32);
    let arr = array_of(&double(std::f32::consts::PI as f64), Some(&dt));
    let float_arr = arr
        .as_any()
        .downcast_ref::<arrow::array::Float32Array>()
        .expect("should be Float32Array from Float32 hint");
    assert!((float_arr.value(0) - std::f32::consts::PI).abs() < 0.001);
    assert_eq!(float_arr.value(0), std::f32::consts::PI);
}

#[test]
fn test_json_to_arrow_large_utf8() {
    let dt = DataType::Plain(PlainType::LargeUtf8);
    let arr = array_of(&text("hello"), Some(&dt));
    let str_arr = arr
        .as_any()
        .downcast_ref::<arrow::array::LargeStringArray>()
        .expect("should be LargeStringArray from LargeUtf8 hint");
    assert_eq!(str_arr.value(0), "hello");
}

#[test]
fn test_json_to_arrow_int64_explicit() {
    let dt = DataType::Plain(PlainType::Int64);
    let arr = array_of(&integer(42), Some(&dt));
    let int_arr = arr
        .as_any()
        .downcast_ref::<arrow::array::Int64Array>()
        .expect("should be Int64Array from Int64 hint");
    assert_eq!(int_arr.value(0), 42);
}

#[test]
fn test_json_to_arrow_int16() {
    let dt = DataType::Plain(PlainType::Int16);
    let arr = array_of(&integer(42), Some(&dt));
    let int_arr = arr
        .as_any()
        .downcast_ref::<arrow::array::Int16Array>()
        .expect("should be Int16Array from Int16 hint");
    assert_eq!(int_arr.value(0), 42);
}

#[test]
fn test_json_to_arrow_null_panics() {
    let result = json_value_to_arrow_array(&JsonValue::Null, None);
    assert!(result.is_err());
    assert!(
        result.unwrap_err().message().contains("null"),
        "error should mention null"
    );
}

#[test]
fn test_json_to_arrow_unsupported_type_hint_errors() {
    // Timestamp is a valid Arrow type but not supported for numbers.
    let hint = object(vec![(
        "Timestamp",
        JsonValue::Array(vec![text("Millisecond"), JsonValue::Null]),
    )]);
    let dt = parse_data_type(&hint).unwrap();
    let result = json_value_to_arrow_array(&integer(42), Some(&dt));
    assert!(result.is_err());
    let msg = result.unwrap_err().message();
    assert!(
        msg.contains("not supported"),
        "error should mention unsupported type, got: {msg}"
    );
    assert_eq!(
        msg,
        "data_type Timestamp(Millisecond, None) is not supported for number-to-arrow conversion; \
         supported types: Int8–Int64, UInt8–UInt64, Float32, Float64"
    );
}

#[test]
fn test_json_to_arrow_single_element() {
    // A single-element JSON array should produce exactly 1 row.
    let arr = array_of(&JsonValue::Array(vec![integer(42)]), None);
    assert_eq!(
        arr.len(),
        1,
        "single-element JSON array should produce 1 Arrow row"
    );
}

#[test]
fn test_json_to_arrow_uint32_overflow() {
    // 5_000_000_000 > u32::MAX (4_294_967_295), must fail with "out of range".
    let dt = DataType::Plain(PlainType::UInt32);
    let result = json_value_to_arrow_array(&uint(5_000_000_000u64), Some(&dt));
    assert!(
        result.is_err(),
        "value exceeding u32::MAX should return an error"
    );
    let msg = result.unwrap_err().message();
    assert!(
        msg.contains("out of range"),
        "error should mention 'out of range', got: {msg}"
    );
}

#[test]
fn test_json_to_arrow_uint16() {
    let dt = DataType::Plain(PlainType::UInt16);
    let arr = array_of(&integer(1000), Some(&dt));
    let uint_arr = arr
        .as_any()
        .downcast_ref::<arrow::array::UInt16Array>()
        .expect("should be UInt16Array");
    assert_eq!(uint_arr.value(0), 1000);
}

#[test]
fn test_json_to_arrow_uint64() {
    let dt = DataType::Plain(PlainType::UInt64);
    // Value within u64 range (above i64::MAX)
    let arr = array_of(&uint(9_223_372_036_854_775_808u64), Some(&dt));
    let uint_arr = arr
        .as_any()
        .downcast_ref::<arrow::array::UInt64Array>()
        .expect("should be UInt64Array");
    assert_eq!(uint_arr.value(0), 9_223_372_036_854_775_808);
}

#[test]
fn test_json_obj_to_arrow_struct_requires_hint() {
    // JSON object without a data_type hint should error.
    let obj = object(vec![("x", integer(1)), ("y", integer(2))]);
    let result = json_value_to_arrow_array(&obj, None);
    assert!(result.is_err());
    let msg = result.unwrap_err().message();
    assert!(
        msg.contains("explicit data_type hint"),
        "error should mention explicit hint requirement, got: {msg}"
    );
}

#[test]
fn test_heterogeneous_array_rejection() {
    // [42, "hello"] should fail with a clear type-mismatch error.
    let arr = JsonValue::Array(vec![integer(42), text("hello")]);
    let result = json_value_to_arrow_array(&arr, None);
    assert!(result.is_err());
    let msg = result.unwrap_err().message();
    assert!(
        msg.contains("type mismatch"),
        "error should mention type mismatch, got: {msg}"
    );
    assert_eq!(
        msg,
        "type mismatch in JSON array at index 1: inferred Int64 from first element, \
         but element 1 is a string"
    );
}

#[test]
fn test_fractional_number_with_int64_hint() {
    // 42.5 with Int64 hint — not representable.
    let dt = DataType::Plain(PlainType::Int64);
    let result = json_value_to_arrow_array(&double(42.5), Some(&dt));
    assert!(result.is_err());
    let msg = result.unwrap_err().message();
    assert!(
        msg.contains("not representable as Int64"),
        "error should mention not representable, got: {msg}"
    );
    assert_eq!(msg, "value 42.5 is not representable as Int64");
}

#[test]
fn test_uint16_overflow() {
    let dt = DataType::Plain(PlainType::UInt16);
    // 70000 > u16::MAX (65535)
    let result = json_value_to_arrow_array(&integer(70000), Some(&dt));
    assert!(result.is_err());
    assert!(result.unwrap_err().message().contains("out of range for UInt16"));
}

#[test]
fn large_unsigned_stays_exact_without_a_hint() {
    let arr = array_of(&uint(u64::MAX), None);
    let uint_arr = arr
        .as_any()
        .downcast_ref::<arrow::array::UInt64Array>()
        .expect("should be UInt64Array");
    assert_eq!(uint_arr.value(0), u64::MAX);
}

#[test]
fn integers_become_the_nearest_double() {
    let wide = DataType::Plain(PlainType::Float64);
    for (value, expected) in [
        (integer(3), 3.0),
        (integer(-7), -7.0),
        (uint(u64::MAX), 18446744073709551615.0),
        (double(0.1), 0.1),
    ] {
        let arr = array_of(&value, Some(&wide));
        let float_arr = arr.as_any().downcast_ref::<arrow::array::Float64Array>().unwrap();
        assert_eq!(float_arr.value(0), expected);
    }
    let narrow = DataType::Plain(PlainType::Float32);
    let arr = array_of(&double(0.1), Some(&narrow));
    let float_arr = arr.as_any().downcast_ref::<arrow::array::Float32Array>().unwrap();
    assert_eq!(float_arr.value(0), 0.1f32);
    let arr = array_of(&double(1e300), Some(&narrow));
    let float_arr = arr.as_any().downcast_ref::<arrow::array::Float32Array>().unwrap();
    assert_eq!(float_arr.value(0), f32::INFINITY);
}

#[test]
fn ranges_end_where_the_types_do() {
    let cases = [
        (PlainType::Int8, -128i64, 127i64),
        (PlainType::Int16, -32768, 32767),
        (PlainType::Int32, -2147483648, 2147483647),
        (PlainType::UInt8, 0, 255),
        (PlainType::UInt16, 0, 65535),
        (PlainType::UInt32, 0, 4294967295),
    ];
    for (target, low, high) in cases {
        let dt = DataType::Plain(target);
        for inside in [low, high] {
            assert_eq!(array_of(&integer(inside), Some(&dt)).len(), 1);
        }
        for outside in [low - 1, high + 1] {
            assert_eq!(
                message_of(&integer(outside), Some(&dt)),
                format!("value {outside} out of range for {}", target.name())
            );
        }
    }
    assert_eq!(
        message_of(&uint(u64::MAX), Some(&DataType::Plain(PlainType::Int64))),
        "value 18446744073709551615 is not representable as Int64"
    );
    assert_eq!(
        message_of(&integer(-1), Some(&DataType::Plain(PlainType::UInt64))),
        "value -1 is not representable as UInt64"
    );
}

#[test]
fn numbers_take_no_text_type() {
    let dt = DataType::Plain(PlainType::Utf8);
    let e = number_to_arrow_array(&Number::PosInt(1), Some(&dt)).unwrap_err();
    assert!(matches!(&e, ConvertError::UnsupportedType(json) if json == "\"Utf8\""));
    assert_eq!(
        e.message(),
        "data_type Utf8 is not supported for number-to-arrow conversion; \
         supported types: Int8–Int64, UInt8–UInt64, Float32, Float64"
    );
}

#[test]
fn arrays_have_one_row_for_each_element() {
    let arr = column_of(&JsonValue::Array(vec![text("a\nb"), text("c"), text("\u{1}\"")]), None);
    let str_arr = arr.as_any().downcast_ref::<arrow::array::StringArray>().unwrap();
    assert_eq!(str_arr.len(), 3);
    assert_eq!(str_arr.value(0), "a\nb");
    assert_eq!(str_arr.value(1), "c");
    assert_eq!(str_arr.value(2), "\u{1}\"");
}

#[test]
fn long_arrays_are_put_together_in_order() {
    let items = (0..3000).map(integer).collect();
    let arr = column_of(&JsonValue::Array(items), None);
    let int_arr = arr.as_any().downcast_ref::<arrow::array::Int64Array>().unwrap();
    assert_eq!(int_arr.len(), 3000);
    for i in 0..3000 {
        assert_eq!(int_arr.value(i), i as i64);
    }
}

#[test]
fn arrays_follow_their_first_element() {
    let arr = column_of(&JsonValue::Array(vec![double(0.5), integer(2)]), None);
    let float_arr = arr.as_any().downcast_ref::<arrow::array::Float64Array>().unwrap();
    assert_eq!(float_arr.values().to_vec(), vec![0.5, 2.0]);
    let arr = column_of(&JsonValue::Array(vec![JsonValue::Bool(false)]), None);
    assert!(!arr.as_any().downcast_ref::<arrow::array::BooleanArray>().unwrap().value(0));
    let arr = column_of(&JsonValue::Array(vec![JsonValue::Null, JsonValue::Null]), None);
    assert_eq!(arr.len(), 2);
    assert_eq!(
        array_element_type(&vec![integer(1), integer(2), double(0.5)], None).unwrap_err().message(),
        "type mismatch in JSON array at index 2: inferred Int64 from first element, \
         but element 2 is a number of a different kind"
    );
}

#[test]
fn mismatch_is_reported_at_the_first_misfit() {
    let cases = [
        (text("x"), Misfit::Text, "a string"),
        (JsonValue::Bool(true), Misfit::Boolean, "a boolean"),
        (JsonValue::Null, Misfit::Null, "null"),
        (JsonValue::Array(vec![]), Misfit::Array, "an array"),
        (object(vec![]), Misfit::Object, "an object"),
        (double(1.5), Misfit::Number, "a number of a different kind"),
    ];
    for (value, misfit, words) in cases {
        let e = array_element_type(&vec![integer(1), integer(2), value, text("y")], None).unwrap_err();
        match &e {
            ConvertError::TypeMismatch { index, inferred, found } => {
                assert_eq!(*index, 2);
                assert_eq!(*inferred, PlainType::Int64);
                assert_eq!(*found, misfit);
            }
            other => panic!("expected a mismatch, got {other:?}"),
        }
        assert!(e.message().ends_with(words));
    }
}

#[test]
fn nested_and_empty_arrays_need_a_hint() {
    assert_eq!(
        message_of(&JsonValue::Array(vec![JsonValue::Array(vec![])]), None),
        "array/object elements in a JSON array require an explicit data type hint"
    );
    assert_eq!(
        message_of(&JsonValue::Array(vec![]), None),
        "empty JSON array cannot be converted to Arrow without a type hint"
    );
    let dt = DataType::Plain(PlainType::Int64);
    assert_eq!(
        message_of(&JsonValue::Array(vec![]), Some(&dt)),
        "arrow_json produced no batches from input"
    );
}

#[test]
fn hinted_arrays_are_read_with_the_hint() {
    let dt = DataType::Plain(PlainType::Int32);
    let arr = column_of(&JsonValue::Array(vec![integer(1), JsonValue::Null, integer(3)]), Some(&dt));
    let int_arr = arr.as_any().downcast_ref::<arrow::array::Int32Array>().unwrap();
    assert_eq!(int_arr.len(), 3);
    assert_eq!(int_arr.value(0), 1);
    assert!(int_arr.is_null(1));
    assert_eq!(int_arr.value(2), 3);
    let e = json_value_to_arrow_array(&JsonValue::Array(vec![text("x")]), Some(&dt)).unwrap_err();
    assert!(matches!(e, ConvertError::ReadFailed(_)));
    assert!(e.message().starts_with("arrow_json read error: "));
}

#[test]
fn types_without_a_reader_are_refused() {
    let hint = object(vec![("Interval", text("DayTime"))]);
    let dt = parse_data_type(&hint).unwrap();
    let e = json_value_to_arrow_array(&JsonValue::Array(vec![integer(1)]), Some(&dt)).unwrap_err();
    assert!(matches!(e, ConvertError::ReaderFailed(_)));
    assert!(e.message().starts_with("failed to build arrow_json reader: "));
}

#[test]
fn objects_are_one_row_of_their_hint() {
    let hint = object(vec![(
        "Struct",
        JsonValue::Array(vec![field("x", text("Int64")), field("y", text("Float32"))]),
    )]);
    let dt = parse_data_type(&hint).unwrap();
    let arr = array_of(&object(vec![("x", integer(1)), ("y", double(2.5))]), Some(&dt));
    let rows = arr.as_any().downcast_ref::<arrow::array::StructArray>().unwrap();
    assert_eq!(rows.len(), 1);
    assert_eq!(rows.num_columns(), 2);
    let x = rows.column(0).as_any().downcast_ref::<arrow::array::Int64Array>().unwrap();
    assert_eq!(x.value(0), 1);
    let y = rows.column(1).as_any().downcast_ref::<arrow::array::Float32Array>().unwrap();
    assert_eq!(y.value(0), 2.5);
}

#[test]
fn sized_lists_and_decimals_are_read() {
    let hint = object(vec![(
        "FixedSizeList",
        JsonValue::Array(vec![field("item", text("Int64")), integer(2)]),
    )]);
    let dt = parse_data_type(&hint).unwrap();
    let rows = JsonValue::Array(vec![
        JsonValue::Array(vec![integer(1), integer(2)]),
        JsonValue::Null,
        JsonValue::Array(vec![integer(3), integer(4)]),
    ]);
    let arr = column_of(&rows, Some(&dt));
    let lists = arr.as_any().downcast_ref::<arrow::array::FixedSizeListArray>().unwrap();
    assert_eq!(lists.len(), 3);
    assert!(lists.is_null(1));
    let hint = object(vec![("Decimal128", JsonValue::Array(vec![integer(10), integer(2)]))]);
    let dt = parse_data_type(&hint).unwrap();
    let arr = column_of(&JsonValue::Array(vec![double(1.25), integer(3)]), Some(&dt));
    let decimals = arr.as_any().downcast_ref::<arrow::array::Decimal128Array>().unwrap();
    assert_eq!(decimals.value(0), 125);
    assert_eq!(decimals.value(1), 300);
    let arr = column_of(&JsonValue::Array(vec![text("1.25"), text("-3")]), Some(&dt));
    let decimals = arr.as_any().downcast_ref::<arrow::array::Decimal128Array>().unwrap();
    assert_eq!(decimals.value(0), 125);
    assert_eq!(decimals.value(1), -300);
    let hint = object(vec![("Decimal32", JsonValue::Array(vec![integer(5), integer(1)]))]);
    let dt = parse_data_type(&hint).unwrap();
    let arr = column_of(&JsonValue::Array(vec![integer(12)]), Some(&dt));
    let decimals = arr.as_any().downcast_ref::<arrow::array::Decimal32Array>().unwrap();
    assert_eq!(decimals.value(0), 120);
    let arr = column_of(&JsonValue::Array(vec![double(1.5)]), Some(&dt));
    let decimals = arr.as_any().downcast_ref::<arrow::array::Decimal32Array>().unwrap();
    assert_eq!(decimals.value(0), 15);
    let hint = object(vec![("FixedSizeBinary", integer(2))]);
    let dt = parse_data_type(&hint).unwrap();
    let arr = column_of(&JsonValue::Array(vec![text("0aff"), JsonValue::Null]), Some(&dt));
    let bytes = arr.as_any().downcast_ref::<arrow::array::FixedSizeBinaryArray>().unwrap();
    assert_eq!(bytes.value(0), [0x0a, 0xff]);
    assert!(bytes.is_null(1));
}

#[test]
fn members_can_be_sized_bytes() {
    let hint = object(vec![(
        "Struct",
        JsonValue::Array(vec![
            field("id", object(vec![("FixedSizeBinary", integer(2))])),
            field("n", text("Int64")),
        ]),
    )]);
    let dt = parse_data_type(&hint).unwrap();
    let row = |id: JsonValue| object(vec![("id", id), ("n", integer(5))]);
    let rows = JsonValue::Array(vec![row(text("0102")), row(JsonValue::Null)]);
    let arr = column_of(&rows, Some(&dt));
    let rows = arr.as_any().downcast_ref::<arrow::array::StructArray>().unwrap();
    let ids = rows.column(0).as_any();
    let ids = ids.downcast_ref::<arrow::array::FixedSizeBinaryArray>().unwrap();
    assert_eq!(ids.value(0), [1, 2]);
    assert!(ids.is_null(1));
    assert_eq!(array_of(&row(text("0304")), Some(&dt)).len(), 1);
    assert!(!is_convertible(&row(integer(1)), Some(&dt)));
    assert!(!is_convertible(&JsonValue::Array(vec![row(integer(1))]), Some(&dt)));
}

#[test]
fn decimals_are_read_from_all_that_does_not_overflow() {
    let hint = object(vec![("Decimal128", JsonValue::Array(vec![integer(10), integer(2)]))]);
    let dt = parse_data_type(&hint).unwrap();
    let read = [
        (text("1.5e2"), 15000),
        (text("125e-2"), 125),
        (text("-1E+1"), -1000),
        (text(&format!("{}1.25", "0".repeat(300))), 125),
        (text(&format!("0.3{}", "3".repeat(300))), 33),
        (text("1e-20000"), 0),
        (double(1e-7), 0),
        (double(2.5e6), 250000000),
        (integer(-7), -700),
    ];
    for (value, expected) in read {
        let arr = column_of(&JsonValue::Array(vec![value]), Some(&dt));
        let decimals = arr.as_any().downcast_ref::<arrow::array::Decimal128Array>().unwrap();
        assert_eq!(decimals.value(0), expected);
    }
    let refused = [
        text("apple"),
        text("1.2.3"),
        text(""),
        text("1e"),
        text("1e1x1"),
        text(&"1".repeat(200)),
        double(1e300),
        JsonValue::Bool(true),
    ];
    for value in refused {
        let e = json_value_to_arrow_array(&JsonValue::Array(vec![value]), Some(&dt)).unwrap_err();
        assert!(matches!(e, ConvertError::ReadFailed(_)));
    }
    for value in [text("1e99999"), text(&"1".repeat(300)), text("1e32767")] {
        assert!(!is_convertible(&JsonValue::Array(vec![value]), Some(&dt)));
    }
    let hint = object(vec![("Decimal32", JsonValue::Array(vec![integer(5), integer(1)]))]);
    let dt = parse_data_type(&hint).unwrap();
    let shifted = text(&format!("{}e-35", "1".repeat(38)));
    assert!(!is_convertible(&JsonValue::Array(vec![shifted]), Some(&dt)));
    let too_long = text(&format!("{}e-35", "1".repeat(50)));
    let e = json_value_to_arrow_array(&JsonValue::Array(vec![too_long]), Some(&dt)).unwrap_err();
    assert!(matches!(e, ConvertError::ReadFailed(_)));
    let shifted = text(&format!("{}e-30", "1".repeat(33)));
    let arr = column_of(&JsonValue::Array(vec![shifted]), Some(&dt));
    assert_eq!(arr.len(), 1);
}

#[test]
fn decimals_stand_beside_texts() {
    let price = object(vec![("Decimal128", JsonValue::Array(vec![integer(10), integer(2)]))]);
    let hint = object(vec![(
        "Struct",
        JsonValue::Array(vec![field("name", text("Utf8")), field("price", price)]),
    )]);
    let dt = parse_data_type(&hint).unwrap();
    for name in ["apple", "2.5e99999", &"9".repeat(400)] {
        let row = object(vec![("name", text(name)), ("price", integer(1))]);
        let arr = array_of(&row, Some(&dt));
        let rows = arr.as_any().downcast_ref::<arrow::array::StructArray>().unwrap();
        let names = rows.column(0).as_any().downcast_ref::<arrow::array::StringArray>().unwrap();
        assert_eq!(names.value(0), name);
        let prices = rows.column(1).as_any();
        let prices = prices.downcast_ref::<arrow::array::Decimal128Array>().unwrap();
        assert_eq!(prices.value(0), 100);
    }
    let row = object(vec![("name", integer(1)), ("price", text("1e99999"))]);
    assert!(!is_convertible(&row, Some(&dt)));
}

#[test]
fn maps_of_decimals_are_read() {
    let decimal = object(vec![("Decimal64", JsonValue::Array(vec![integer(10), integer(1)]))]);
    let entries = object(vec![(
        "Struct",
        JsonValue::Array(vec![required("keys", text("Utf8")), field("values", decimal)]),
    )]);
    let hint = object(vec![(
        "Map",
        JsonValue::Array(vec![required("entries", entries), JsonValue::Bool(false)]),
    )]);
    let dt = parse_data_type(&hint).unwrap();
    let row = object(vec![("1e99999", double(2.5)), ("b", JsonValue::Null)]);
    let arr = array_of(&row, Some(&dt));
    let maps = arr.as_any().downcast_ref::<arrow::array::MapArray>().unwrap();
    assert_eq!(maps.len(), 1);
    let keys = maps.keys().as_any().downcast_ref::<arrow::array::StringArray>().unwrap();
    assert_eq!(keys.value(0), "1e99999");
    let values = maps.values().as_any().downcast_ref::<arrow::array::Decimal64Array>().unwrap();
    assert_eq!(values.value(0), 25);
    assert!(values.is_null(1));
    let row = object(vec![("a", text("1e99999"))]);
    assert!(!is_convertible(&row, Some(&dt)));
}

#[test]
fn sized_bytes_are_read_at_any_depth() {
    let bytes = object(vec![("FixedSizeBinary", integer(1))]);
    let list = object(vec![("List", field("item", bytes.clone()))]);
    let inner = object(vec![("Struct", JsonValue::Array(vec![field("id", bytes)]))]);
    let hint = object(vec![(
        "Struct",
        JsonValue::Array(vec![field("ids", list), field("inner", inner)]),
    )]);
    let dt = parse_data_type(&hint).unwrap();
    let row = |a: JsonValue, b: JsonValue| {
        object(vec![("ids", JsonValue::Array(vec![a])), ("inner", object(vec![("id", b)]))])
    };
    let arr = array_of(&row(text("0a"), text("0b")), Some(&dt));
    let rows = arr.as_any().downcast_ref::<arrow::array::StructArray>().unwrap();
    let ids = rows.column(0).as_any().downcast_ref::<arrow::array::ListArray>().unwrap();
    let ids = ids.values().as_any();
    let ids = ids.downcast_ref::<arrow::array::FixedSizeBinaryArray>().unwrap();
    assert_eq!(ids.value(0), [0x0a]);
    assert_eq!(array_of(&row(JsonValue::Null, JsonValue::Null), Some(&dt)).len(), 1);
    assert_eq!(array_of(&object(vec![("other", integer(1))]), Some(&dt)).len(), 1);
    assert!(!is_convertible(&row(integer(1), text("0b")), Some(&dt)));
    assert!(!is_convertible(&row(text("0a"), JsonValue::Bool(true)), Some(&dt)));
}

#[test]
fn runs_are_read() {
    let runs = |ends: &str| {
        object(vec![(
            "RunEndEncoded",
            JsonValue::Array(vec![required("run_ends", text(ends)), field("values", text("Int64"))]),
        )])
    };
    let rows = |n: i64| JsonValue::Array((0..n).map(|i| integer(i / 10)).collect());
    let hint = runs("Int32");
    let dt = parse_data_type(&hint).unwrap();
    let arr = column_of(&rows(25), Some(&dt));
    assert_eq!(arr.len(), 25);
    let run = arr.as_any().downcast_ref::<arrow::array::Int32RunArray>().unwrap();
    assert_eq!(run.run_ends().values(), [10, 20, 25]);
    assert_eq!(column_of(&rows(3000), Some(&dt)).len(), 3000);
    let hint = runs("Int16");
    let dt = parse_data_type(&hint).unwrap();
    assert_eq!(column_of(&rows(32767), Some(&dt)).len(), 32767);
    assert!(!is_convertible(&rows(32768), Some(&dt)));
    let hint = object(vec![(
        "Struct",
        JsonValue::Array(vec![field("x", runs("Int16")), field("y", runs("Int16"))]),
    )]);
    let dt = parse_data_type(&hint).unwrap();
    let both = JsonValue::Array(vec![object(vec![("x", integer(1))]); 20000]);
    assert_eq!(column_of(&both, Some(&dt)).len(), 20000);
    let hint = object(vec![("List", field("item", runs("Int16")))]);
    let dt = parse_data_type(&hint).unwrap();
    let e = json_value_to_arrow_array(&JsonValue::Array(vec![rows(40000)]), Some(&dt)).unwrap_err();
    assert!(matches!(e, ConvertError::ReadFailed(_)));
}

#[test]
fn sized_lists_are_bound_by_their_places() {
    let hint = object(vec![(
        "FixedSizeList",
        JsonValue::Array(vec![field("item", text("Utf8")), integer(1000)]),
    )]);
    let dt = parse_data_type(&hint).unwrap();
    let long = text(&"x".repeat(3000));
    let rows = JsonValue::Array(vec![JsonValue::Array(vec![long; 1000]), JsonValue::Null]);
    let arr = column_of(&rows, Some(&dt));
    assert_eq!(arr.len(), 2);
    let e = json_value_to_arrow_array(
        &JsonValue::Array(vec![JsonValue::Array(vec![text("x")])]),
        Some(&dt),
    )
    .unwrap_err();
    assert!(matches!(e, ConvertError::ReadFailed(_)));
}

#[test]
fn hints_may_be_deeply_nested() {
    let mut hint = text("Int64");
    for _ in 0..140 {
        hint = object(vec![("List", field("item", hint))]);
    }
    let dt = parse_data_type(&hint).unwrap();
    let rows = JsonValue::Array(vec![JsonValue::Array(vec![])]);
    let data = json_value_to_arrow_array(&rows, Some(&dt)).unwrap();
    assert_eq!(data.len(), 1);
    assert!(message_of(&integer(1), Some(&dt)).starts_with("data_type List("));
}

#[test]
fn hints_must_suit_texts_and_booleans() {
    let plain = |p| DataType::Plain(p);
    for p in [PlainType::Int64, PlainType::Boolean, PlainType::Null, PlainType::Float64] {
        let e = json_value_to_arrow_array(&text("hello"), Some(&plain(p))).unwrap_err();
        assert!(matches!(e, ConvertError::UnsupportedTextType(_)));
        assert_eq!(
            e.message(),
            format!(
                "data_type {} is not supported for string-to-arrow conversion; \
                 supported types: Utf8, LargeUtf8",
                p.name()
            )
        );
    }
    for p in [PlainType::Int64, PlainType::Utf8, PlainType::Null, PlainType::UInt8] {
        let e = json_value_to_arrow_array(&JsonValue::Bool(true), Some(&plain(p))).unwrap_err();
        assert!(matches!(e, ConvertError::UnsupportedBooleanType(_)));
        assert_eq!(
            e.message(),
            format!(
                "data_type {} is not supported for boolean-to-arrow conversion; \
                 supported types: Boolean",
                p.name()
            )
        );
    }
    let hint = text("Date32");
    let dt = parse_data_type(&hint).unwrap();
    assert!(message_of(&text("2020-01-01"), Some(&dt)).starts_with("data_type Date32 is not"));
    assert!(message_of(&JsonValue::Bool(false), Some(&dt)).starts_with("data_type Date32 is not"));
    let arr = array_of(&text("hello"), Some(&plain(PlainType::Utf8)));
    let texts = arr.as_any().downcast_ref::<arrow::array::StringArray>().unwrap();
    assert_eq!(texts.value(0), "hello");
    let arr = array_of(&JsonValue::Bool(false), Some(&plain(PlainType::Boolean)));
    let truths = arr.as_any().downcast_ref::<arrow::array::BooleanArray>().unwrap();
    assert!(!truths.value(0));
}

#[test]
fn arrays_of_plain_types_hold_their_values() {
    let n: i64 = 1500;
    let numbers = JsonValue::Array((0..n).map(|i| integer(i - 700)).collect());
    let arr = column_of(&numbers, None);
    let numbers = arr.as_any().downcast_ref::<arrow::array::Int64Array>().unwrap();
    assert_eq!(numbers.len(), n as usize);
    assert!((0..n).all(|i| numbers.value(i as usize) == i - 700));
    let tricky = "line\nbreak \"quoted\" \u{1F600} \u{7}";
    let texts = JsonValue::Array(vec![text(""), text(tricky), text("x")]);
    let arr = column_of(&texts, None);
    let texts = arr.as_any().downcast_ref::<arrow::array::StringArray>().unwrap();
    assert_eq!((texts.value(0), texts.value(1), texts.value(2)), ("", tricky, "x"));
    let truths = JsonValue::Array(vec![JsonValue::Bool(true), JsonValue::Null]);
    let dt = DataType::Plain(PlainType::Boolean);
    let arr = column_of(&truths, Some(&dt));
    let truths = arr.as_any().downcast_ref::<arrow::array::BooleanArray>().unwrap();
    assert!(truths.value(0) && truths.is_null(1));
    let dt = DataType::Plain(PlainType::UInt64);
    let arr = column_of(&JsonValue::Array(vec![uint(u64::MAX), integer(0)]), Some(&dt));
    let wide = arr.as_any().downcast_ref::<arrow::array::UInt64Array>().unwrap();
    assert_eq!((wide.value(0), wide.value(1)), (u64::MAX, 0));
    let dt = DataType::Plain(PlainType::Null);
    assert_eq!(column_of(&JsonValue::Array(vec![JsonValue::Null; 3]), Some(&dt)).len(), 3);
}

#[test]
fn arrays_become_structures_of_one_field() {
    let arr = array_of(&JsonValue::Array(vec![integer(42), integer(-1)]), None);
    let described = "{\"Struct\":[{\"name\":\"data\",\"data_type\":\"Int64\",\"nullable\":true,\
                     \"dict_id\":0,\"dict_is_ordered\":false,\"metadata\":{}}]}";
    let data_type: arrow::datatypes::DataType = serde_json::from_str(described).unwrap();
    assert_eq!(arr.data_type(), &data_type);
    assert_eq!(serde_json::to_string(arr.data_type()).unwrap(), described);
    let rows = arr.as_any().downcast_ref::<StructArray>().unwrap();
    assert_eq!(rows.num_columns(), 1);
    let values = rows.column_by_name("data").unwrap();
    let values = values.as_any().downcast_ref::<arrow::array::Int64Array>().unwrap();
    assert_eq!((values.value(0), values.value(1)), (42, -1));
    let dt = DataType::Plain(PlainType::Int8);
    let arr = array_of(&JsonValue::Array(vec![JsonValue::Null]), Some(&dt));
    assert_eq!((arr.len(), arr.null_count()), (1, 0));
    let hint = object(vec![("Struct", JsonValue::Array(vec![field("x", text("Int64"))]))]);
    let dt = parse_data_type(&hint).unwrap();
    let column = column_of(&JsonValue::Array(vec![object(vec![("x", integer(7))])]), Some(&dt));
    let inner = column.as_any().downcast_ref::<StructArray>().unwrap();
    let x = inner.column(0).as_any().downcast_ref::<arrow::array::Int64Array>().unwrap();
    assert_eq!(x.value(0), 7);
}

#[test]
fn doubles_come_back_from_arrays() {
    let doubles = [
        0.0,
        -0.0,
        0.1,
        -2.5,
        5e-324,
        2.2250738585072014e-308,
        1.7976931348623157e308,
        1e22,
        123456789.12345679,
        1.000000059604644775390625,
    ];
    let arr = column_of(&JsonValue::Array(doubles.iter().map(|x| double(*x)).collect()), None);
    let read = arr.as_any().downcast_ref::<arrow::array::Float64Array>().unwrap();
    for (i, x) in doubles.iter().enumerate() {
        assert_eq!(read.value(i).to_bits(), x.to_bits());
    }
    let integers = [uint(u64::MAX), uint((1 << 53) + 1), integer(i64::MIN), integer(-3), uint(0)];
    let dt = DataType::Plain(PlainType::Float64);
    let arr = column_of(&JsonValue::Array(integers.to_vec()), Some(&dt));
    let read = arr.as_any().downcast_ref::<arrow::array::Float64Array>().unwrap();
    for (i, n) in integers.iter().enumerate() {
        let alone = array_of(n, Some(&dt));
        let alone = alone.as_any().downcast_ref::<arrow::array::Float64Array>().unwrap();
        assert_eq!(read.value(i).to_bits(), alone.value(0).to_bits());
    }
}

#[test]
fn singles_are_read_from_the_digits() {
    let dt = DataType::Plain(PlainType::Float32);
    let exact = [
        double(1.5),
        double(-0.0),
        double(0.1f32 as f64),
        double(f32::MAX as f64),
        double(f32::MIN_POSITIVE as f64),
        uint(16777217),
        uint(1 << 53),
        integer(-(1 << 53)),
        integer(-9007199254740991),
    ];
    let arr = column_of(&JsonValue::Array(exact.to_vec()), Some(&dt));
    let read = arr.as_any().downcast_ref::<arrow::array::Float32Array>().unwrap();
    for (i, n) in exact.iter().enumerate() {
        let alone = array_of(n, Some(&dt));
        let alone = alone.as_any().downcast_ref::<arrow::array::Float32Array>().unwrap();
        assert_eq!(read.value(i).to_bits(), alone.value(0).to_bits());
    }
    // Halfway between two singles: the digits of the double are above it.
    let halfway = double(1.000000059604644775390625);
    let arr = column_of(&JsonValue::Array(vec![halfway.clone()]), Some(&dt));
    let read = arr.as_any().downcast_ref::<arrow::array::Float32Array>().unwrap();
    assert_eq!(read.value(0), 1.0000001);
    let alone = array_of(&halfway, Some(&dt));
    let alone = alone.as_any().downcast_ref::<arrow::array::Float32Array>().unwrap();
    assert_eq!(alone.value(0), 1.0);
}

#[test]
fn structures_hold_their_members() {
    let hint = object(vec![(
        "Struct",
        JsonValue::Array(vec![
            field("a", text("Int8")),
            field("b", object(vec![("Utf8", JsonValue::Null)])),
            field("c", text("Float64")),
            field("d", text("Boolean")),
            field("e", object(vec![("List", field("item", text("Int64")))])),
        ]),
    )]);
    let dt = parse_data_type(&hint).unwrap();
    let row = object(vec![
        ("c", double(0.25)),
        ("other", integer(9)),
        ("a", integer(-3)),
        ("b", text("x\ny")),
    ]);
    let arr = array_of(&row, Some(&dt));
    let rows = arr.as_any().downcast_ref::<StructArray>().unwrap();
    assert_eq!((rows.len(), rows.num_columns()), (1, 5));
    let a = rows.column(0).as_any().downcast_ref::<arrow::array::Int8Array>().unwrap();
    let b = rows.column(1).as_any().downcast_ref::<arrow::array::StringArray>().unwrap();
    let c = rows.column(2).as_any().downcast_ref::<arrow::array::Float64Array>().unwrap();
    assert_eq!((a.value(0), b.value(0), c.value(0)), (-3, "x\ny", 0.25));
    assert!(rows.column(3).is_null(0) && rows.column(4).is_null(0));
}

#[test]
fn empty_arrays_of_plain_types_have_no_rows() {
    for p in [PlainType::Int64, PlainType::Utf8, PlainType::Null, PlainType::Float32] {
        let dt = DataType::Plain(p);
        let e = json_value_to_arrow_array(&JsonValue::Array(vec![]), Some(&dt)).unwrap_err();
        assert!(matches!(e, ConvertError::NoBatches));
    }
}

#[test]
fn sizes_of_zero_are_read_outside_of_runs() {
    let bytes = object(vec![("FixedSizeBinary", integer(0))]);
    let lists = object(vec![(
        "FixedSizeList",
        JsonValue::Array(vec![field("item", text("Int64")), integer(0)]),
    )]);
    let row = |i: i64, v: JsonValue| if i % 3 == 0 { JsonValue::Null } else { v };
    let nested = object(vec![(
        "Struct",
        JsonValue::Array(vec![field("a", bytes.clone()), field("b", lists.clone())]),
    )]);
    let listed = object(vec![("List", field("item", bytes.clone()))]);
    let empty = || object(vec![("a", text("")), ("b", JsonValue::Array(vec![]))]);
    let n: i64 = 2100;
    let cases: Vec<(&JsonValue, Vec<JsonValue>)> = vec![
        (&bytes, (0..n).map(|_| text("")).collect()),
        (&bytes, (0..n).map(|i| row(i, text(""))).collect()),
        (&lists, (0..n).map(|_| JsonValue::Array(vec![])).collect()),
        (&lists, (0..n).map(|i| row(i, JsonValue::Array(vec![]))).collect()),
        (&nested, (0..n).map(|_| empty()).collect()),
        (&nested, (0..n).map(|i| row(i, empty())).collect()),
        (&listed, (0..n).map(|i| row(i, JsonValue::Array(vec![text("")]))).collect()),
    ];
    for (hint, items) in cases {
        let dt = parse_data_type(hint).unwrap();
        assert_eq!(column_of(&JsonValue::Array(items), Some(&dt)).len(), n as usize);
    }
    let runs = |values: &JsonValue| {
        object(vec![(
            "RunEndEncoded",
            JsonValue::Array(vec![
                required("run_ends", text("Int32")),
                field("values", values.clone()),
            ]),
        )])
    };
    let below = [
        (bytes.clone(), text("")),
        (lists.clone(), JsonValue::Array(vec![])),
        (nested.clone(), empty()),
        (listed.clone(), JsonValue::Array(vec![])),
        (runs(&bytes), text("")),
    ];
    for (values, v) in below {
        let hint = runs(&values);
        let dt = parse_data_type(&hint).unwrap();
        assert!(!is_convertible(&JsonValue::Array(vec![v]), Some(&dt)));
    }
}

#[test]
fn runs_of_structures_are_read() {
    let runs = |values: JsonValue| {
        object(vec![(
            "RunEndEncoded",
            JsonValue::Array(vec![
                required("run_ends", object(vec![("Int32", JsonValue::Null)])),
                field("values", values),
            ]),
        )])
    };
    let structure = |fields: Vec<JsonValue>| object(vec![("Struct", JsonValue::Array(fields))]);
    let size = |n: i64| JsonValue::Array(vec![field("item", text("Int8")), integer(n)]);
    let entries = structure(vec![required("keys", text("Utf8")), field("values", text("Int64"))]);
    let map = JsonValue::Array(vec![required("entries", entries), JsonValue::Bool(false)]);
    let values = structure(vec![
        field("a", text("Int64")),
        required("b", object(vec![("FixedSizeBinary", integer(1))])),
        field("c", text("Null")),
        field("d", runs(text("Utf8"))),
        field("e", object(vec![("FixedSizeList", size(2))])),
        field("f", object(vec![("List", field("item", runs(text("Int64"))))])),
        field("g", object(vec![("Map", map)])),
        field("h", structure(vec![])),
    ]);
    let row = |i: i64| {
        object(vec![
            ("a", integer(i)),
            ("b", text("0a")),
            ("d", text("x")),
            ("e", JsonValue::Array(vec![integer(i), integer(1)])),
            ("f", JsonValue::Array(vec![integer(i), JsonValue::Null])),
            ("g", object(vec![("k", integer(i))])),
            ("h", object(vec![])),
        ])
    };
    let hint = runs(values);
    let dt = parse_data_type(&hint).unwrap();
    for n in [1, 2, 1500] {
        let items = (0..n).map(|i| if i % 7 == 6 { JsonValue::Null } else { row(i % 9 / 3) });
        let arr = column_of(&JsonValue::Array(items.collect()), Some(&dt));
        assert_eq!(arr.len(), n as usize);
    }
    let hidden = [required("c", text("Null")), required("d", runs(text("Utf8")))];
    for f in hidden {
        let hint = runs(structure(vec![field("a", text("Int64")), f]));
        let dt = parse_data_type(&hint).unwrap();
        let row = object(vec![("a", integer(1))]);
        assert!(!is_convertible(&JsonValue::Array(vec![row]), Some(&dt)));
    }
}

#[test]
fn what_the_reader_cannot_take_is_left_out() {
    let negative = object(vec![(
        "FixedSizeList",
        JsonValue::Array(vec![field("item", text("Int64")), integer(-1)]),
    )]);
    let bytes = object(vec![("FixedSizeBinary", integer(2))]);
    let runs = object(vec![(
        "RunEndEncoded",
        JsonValue::Array(vec![field("run_ends", text("Utf8")), field("values", text("Int64"))]),
    )]);
    let huge = object(vec![(
        "FixedSizeList",
        JsonValue::Array(vec![field("item", text("Int64")), integer(2147483647)]),
    )]);
    let below = object(vec![("List", field("item", negative.clone()))]);
    let rows = JsonValue::Array(vec![integer(1)]);
    for hint in [&negative, &bytes, &runs, &huge, &below] {
        let dt = parse_data_type(hint).unwrap();
        assert!(!is_convertible(&rows, Some(&dt)));
        assert!(convert_value(&rows, Some(&dt)).is_none());
    }
    assert!(convert_value(&rows, None).unwrap().is_ok());
}

#[test]
fn hints_are_parsed_by_name_and_by_description() {
    for p in [
        PlainType::Null,
        PlainType::Boolean,
        PlainType::Int8,
        PlainType::Int16,
        PlainType::Int32,
        PlainType::Int64,
        PlainType::UInt8,
        PlainType::UInt16,
        PlainType::UInt32,
        PlainType::UInt64,
        PlainType::Float32,
        PlainType::Float64,
        PlainType::Utf8,
        PlainType::LargeUtf8,
    ] {
        let hint = text(p.name());
        assert!(matches!(parse_data_type(&hint), Ok(DataType::Plain(q)) if q == p));
        assert_eq!(DataType::Plain(p).to_text(), format!("\"{}\"", p.name()));
    }
    let hint = text("Binary");
    assert!(matches!(parse_data_type(&hint), Ok(DataType::Other(_))));
    assert!(parse_data_type(&text("Int65")).unwrap_err().contains("Int65"));
    assert!(parse_data_type(&JsonValue::Null).is_err());
}

#[test]
fn long_arrays_of_many_types_are_put_together() {
    let n: i64 = 2100;
    let point = object(vec![(
        "Struct",
        JsonValue::Array(vec![field("x", text("Int64")), field("s", text("Utf8"))]),
    )]);
    let nested = object(vec![("List", field("item", text("Float64")))]);
    let sized = object(vec![(
        "FixedSizeList",
        JsonValue::Array(vec![field("item", text("Int8")), integer(2)]),
    )]);
    let time = object(vec![(
        "Timestamp",
        JsonValue::Array(vec![text("Millisecond"), JsonValue::Null]),
    )]);
    let runs = |ends: &str| {
        object(vec![(
            "RunEndEncoded",
            JsonValue::Array(vec![required("run_ends", text(ends)), field("values", text("Int64"))]),
        )])
    };
    let sized_runs = object(vec![(
        "FixedSizeList",
        JsonValue::Array(vec![field("item", runs("Int16")), integer(2)]),
    )]);
    let fields_of_runs = object(vec![(
        "Struct",
        JsonValue::Array(vec![field("x", runs("Int16")), field("y", runs("Int64"))]),
    )]);
    let entries = object(vec![(
        "Struct",
        JsonValue::Array(vec![required("keys", text("Utf8")), field("values", runs("Int32"))]),
    )]);
    let map = object(vec![(
        "Map",
        JsonValue::Array(vec![required("entries", entries), JsonValue::Bool(false)]),
    )]);
    let bytes = object(vec![("FixedSizeBinary", integer(1))]);
    let decimal = object(vec![("Decimal256", JsonValue::Array(vec![integer(20), integer(3)]))]);
    let sparse = |i: i64, v: JsonValue| if i % 3 == 0 { JsonValue::Null } else { v };
    let pair = |i: i64| JsonValue::Array(vec![integer(i % 7), integer(i % 5)]);
    let cases: Vec<(JsonValue, Vec<JsonValue>)> = vec![
        (
            point,
            (0..n).map(|i| object(vec![("x", integer(i)), ("s", text("a"))])).collect(),
        ),
        (nested, (0..n).map(pair).collect()),
        (sized, (0..n).map(pair).collect()),
        (time, (0..n).map(integer).collect()),
        (sized_runs, (0..n).map(|i| sparse(i, pair(i))).collect()),
        (
            fields_of_runs,
            (0..n).map(|i| sparse(i, object(vec![("x", integer(i / 5))]))).collect(),
        ),
        (
            map,
            (0..n).map(|i| sparse(i, object(vec![("a", integer(i)), ("b", JsonValue::Null)]))).collect(),
        ),
        (bytes, (0..n).map(|i| sparse(i, text("0f"))).collect()),
        (decimal, (0..n).map(|i| sparse(i, double(i as f64 / 8.0))).collect()),
        (text("Null"), (0..n).map(|_| JsonValue::Null).collect()),
        (text("Boolean"), (0..n).map(|i| JsonValue::Bool(i % 2 == 0)).collect()),
        (text("LargeUtf8"), (0..n).map(|i| text(&i.to_string())).collect()),
        (text("Utf8View"), (0..n).map(|i| text(&i.to_string())).collect()),
        (text("Float32"), (0..n).map(|i| double(i as f64 / 4.0)).collect()),
    ];
    for (hint, items) in cases {
        let dt = parse_data_type(&hint).unwrap();
        let arr = column_of(&JsonValue::Array(items), Some(&dt));
        assert_eq!(arr.len(), n as usize);
    }
}

#[test]
fn failures_to_read_keep_their_reason() {
    let e = merge_read(Err(DecodeError::Reader("no".to_string()))).unwrap_err();
    assert_eq!(e.message(), "failed to build arrow_json reader: no");
    let e = merge_read(Err(DecodeError::Row("no".to_string()))).unwrap_err();
    assert_eq!(e.message(), "arrow_json read error: no");
    let e = merge_read(Ok(vec![])).unwrap_err();
    assert_eq!(e.message(), "arrow_json produced no batches from input");
    let e = check_merged(Err("no".to_string())).unwrap_err();
    assert_eq!(e.message(), "failed to concat batches: no");
    assert_eq!(ConvertError::NoColumns.message(), "arrow_json produced zero columns");
}

#[test]
fn plain_types_are_found_by_name() {
    assert_eq!(find_plain(&"UInt16".to_string()), Some(PlainType::UInt16));
    assert_eq!(find_plain(&"uint16".to_string()), None);
    assert_eq!(find_plain(&String::new()), None);
}
