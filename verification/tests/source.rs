use arrow::array::{make_array, Array, ArrayData, Int64Array};
use dora_test_utils::{
    convert_output, run_test_source, validate_spec, EmitError, EventKind, JsonValue, Number,
    OutputSpec, Report, SourceConfig, SourceError, SourceRun, Step, SUBSCRIBER_SETTLE_MILLIS,
};

fn integer(n: u64) -> JsonValue {
    JsonValue::Number(Number::PosInt(n))
}

fn text(s: &str) -> JsonValue {
    JsonValue::String(s.to_string())
}

fn object(members: Vec<(&str, JsonValue)>) -> JsonValue {
    JsonValue::Object(members.into_iter().map(|(k, v)| (k.to_string(), v)).collect())
}

fn payload(values: Vec<JsonValue>) -> JsonValue {
    object(vec![("data", JsonValue::Array(values))])
}

fn hinted(values: Vec<JsonValue>, hint: JsonValue) -> JsonValue {
    object(vec![("data", JsonValue::Array(values)), ("data_type", hint)])
}

fn output(output_id: &str, data: JsonValue) -> OutputSpec {
    OutputSpec { output_id: output_id.to_string(), data }
}

/// Helper: create a minimal SourceConfig for testing.
fn source_config(data: JsonValue) -> SourceConfig {
    SourceConfig::single("test_out".to_string(), data)
}

fn refusal(config: SourceConfig) -> SourceError {
    match run_test_source(config, true) {
        Ok(_) => panic!("the configuration should be refused"),
        Err(e) => e,
    }
}

fn start(outputs: Vec<OutputSpec>, standalone: bool) -> SourceRun {
    match run_test_source(SourceConfig { outputs }, standalone) {
        Ok(run) => run,
        Err(e) => panic!("refused: {}", e.message()),
    }
}

fn int64_value(array: &ArrayData) -> i64 {
    let array = make_array(array.clone());
    assert_eq!(array.len(), 1);
    array.as_any().downcast_ref::<Int64Array>().expect("should be Int64Array").value(0)
}

/// Drives a standalone run with sends that all succeed: what was sent, and the last step.
fn drive(mut run: SourceRun) -> (Vec<(String, i64)>, Step) {
    let mut sent = Vec::new();
    let mut step = run.advance(Report::Connected);
    while let Step::Send { output_id, array } = step {
        sent.push((output_id, int64_value(&array)));
        step = run.advance(Report::Sent);
    }
    (sent, step)
}

#[test]
fn test_missing_data_field() {
    let config = source_config(object(vec![(
        "not_data",
        JsonValue::Array(vec![integer(1), integer(2)]),
    )]));
    let result = run_test_source(config, true);
    assert!(result.is_err());
    assert!(
        result.err().unwrap().message().contains("missing 'data' field"),
        "error should mention missing .data. field"
    );
}

#[test]
fn test_empty_data_array() {
    let config = source_config(payload(vec![]));
    let result = run_test_source(config, true);
    assert!(result.is_err());
    assert!(
        result.err().unwrap().message().contains("empty"),
        "error should mention empty array"
    );
}

#[test]
fn test_data_not_array() {
    let config = source_config(object(vec![("data", integer(42))]));
    let result = run_test_source(config, true);
    assert!(result.is_err());
    assert!(
        result.err().unwrap().message().contains("must be a JSON array"),
        "error should mention must be array"
    );
}

#[test]
fn refusals_say_what_is_wrong() {
    assert_eq!(
        refusal(source_config(JsonValue::Null)).message(),
        "missing 'data' field in DORA-format input JSON"
    );
    assert_eq!(
        refusal(source_config(object(vec![("data", object(vec![("a", JsonValue::Null)]))])))
            .message(),
        "'data' field must be a JSON array, got: {\"a\":null}"
    );
    assert_eq!(
        refusal(source_config(payload(vec![]))).message(),
        "'data' array is empty — nothing to emit"
    );
    assert_eq!(
        refusal(SourceConfig::single("bad id".to_string(), payload(vec![integer(1)]))).message(),
        "invalid output_id 'bad id': identifier contains invalid character ' ' -- \
         only [a-zA-Z0-9_./-] are allowed"
    );
    assert_eq!(
        refusal(SourceConfig::single(String::new(), payload(vec![integer(1)]))).message(),
        "invalid output_id '': identifier must not be empty"
    );
    for id in ["/a", "a/", "a//b"] {
        assert_eq!(
            refusal(SourceConfig::single(id.to_string(), payload(vec![integer(1)]))).message(),
            format!(
                "invalid output_id '{id}': identifier '{id}' has empty path segment -- \
                 leading, trailing, or consecutive '/' are not allowed"
            )
        );
    }
    assert!(validate_spec(&output("op/out-1.x_Y", payload(vec![integer(1)]))).is_ok());
}

#[test]
fn one_bad_output_refuses_all() {
    let config = SourceConfig {
        outputs: vec![
            output("a", payload(vec![integer(1)])),
            output("b", payload(vec![])),
            output("c", JsonValue::Null),
        ],
    };
    assert!(matches!(refusal(config), SourceError::EmptyData));
}

#[test]
fn outputs_are_sent_in_order() {
    let run = start(
        vec![
            output("a", payload(vec![integer(1), integer(2)])),
            output("b", payload(vec![integer(3)])),
        ],
        true,
    );
    let (sent, last) = drive(run);
    assert_eq!(
        sent,
        vec![("a".to_string(), 1), ("a".to_string(), 2), ("b".to_string(), 3)]
    );
    assert!(matches!(last, Step::Done));
}

#[test]
fn failing_output_is_not_sent_in_part() {
    let run = start(
        vec![
            output("a", payload(vec![integer(1)])),
            output("b", payload(vec![integer(2), JsonValue::Null])),
            output("c", payload(vec![integer(3)])),
        ],
        true,
    );
    let (sent, last) = drive(run);
    assert_eq!(sent, vec![("a".to_string(), 1)]);
    match last {
        Step::Failed(e) => assert_eq!(
            e.message(),
            "failed to emit output 'b': null values are not supported as standalone output"
        ),
        other => panic!("expected a failure, got {other:?}"),
    }
}

#[test]
fn hint_fixes_the_type_of_every_array() {
    let arrays =
        convert_output(&output("a", hinted(vec![integer(1), integer(2)], text("Int32")))).unwrap();
    assert_eq!(arrays.len(), 2);
    for (i, array) in arrays.into_iter().enumerate() {
        let array = make_array(array);
        let array = array.as_any().downcast_ref::<arrow::array::Int32Array>().unwrap();
        assert_eq!(array.value(0), i as i32 + 1);
    }
}

#[test]
fn bad_hint_stops_the_run() {
    let run = start(vec![output("a", hinted(vec![integer(1)], text("Int65")))], true);
    let (sent, last) = drive(run);
    assert!(sent.is_empty());
    match last {
        Step::Failed(e) => {
            assert!(e.message().starts_with(
                "failed to emit output 'a': invalid data_type in input JSON: \"Int65\": "
            ));
            assert!(matches!(
                e,
                SourceError::EmitFailed { cause: EmitError::InvalidHint { .. }, .. }
            ));
        }
        other => panic!("expected a failure, got {other:?}"),
    }
}

#[test]
fn value_beyond_the_reader_stops_the_run() {
    let hint = object(vec![("FixedSizeBinary", integer(2))]);
    let run = start(
        vec![output("a", hinted(vec![JsonValue::Array(vec![integer(1)])], hint))],
        true,
    );
    let (sent, last) = drive(run);
    assert!(sent.is_empty());
    match last {
        Step::Failed(e) => {
            assert!(matches!(
                &e,
                SourceError::EmitFailed { cause: EmitError::OutOfReach, .. }
            ));
            assert_eq!(
                e.message(),
                "failed to emit output 'a': value is beyond what can be read into an Arrow array"
            );
        }
        other => panic!("expected a failure, got {other:?}"),
    }
}

#[test]
fn output_id_is_checked_again_after_the_data() {
    let e = convert_output(&output("bad id", payload(vec![integer(1)]))).unwrap_err();
    assert!(matches!(e, EmitError::InvalidOutputId { .. }));
    assert!(e.message().starts_with("invalid output_id 'bad id': "));
}

#[test]
fn run_with_a_daemon_settles_and_stays() {
    let mut run = start(vec![output("a", payload(vec![integer(1)]))], false);
    match run.advance(Report::Connected) {
        Step::Settle { millis } => {
            assert_eq!(millis, 500);
            assert_eq!(millis, SUBSCRIBER_SETTLE_MILLIS);
        }
        other => panic!("expected to settle, got {other:?}"),
    }
    assert!(matches!(run.advance(Report::Settled), Step::Send { .. }));
    assert!(matches!(run.advance(Report::Sent), Step::Await));
    assert!(matches!(run.advance(Report::Received(EventKind::Input)), Step::Await));
    assert!(matches!(run.advance(Report::Received(EventKind::Other)), Step::Await));
    assert!(matches!(run.advance(Report::Received(EventKind::Stop)), Step::Done));
}

#[test]
fn run_ends_with_its_stream() {
    for report in [Report::StreamEnded, Report::Received(EventKind::InputClosed)] {
        let mut run = start(vec![output("a", payload(vec![integer(1)]))], false);
        run.advance(Report::Connected);
        run.advance(Report::Settled);
        run.advance(Report::Sent);
        assert!(matches!(run.advance(report), Step::Done));
    }
}

#[test]
fn failures_of_the_node_end_the_run() {
    let mut run = start(vec![output("a", payload(vec![integer(1)]))], true);
    match run.advance(Report::ConnectFailed("no daemon".to_string())) {
        Step::Failed(e) => {
            assert_eq!(e.message(), "failed to initialize DORA node: no daemon")
        }
        other => panic!("expected a failure, got {other:?}"),
    }
    let mut run = start(
        vec![
            output("a", payload(vec![integer(1)])),
            output("b", payload(vec![integer(2)])),
        ],
        true,
    );
    run.advance(Report::Connected);
    run.advance(Report::Sent);
    match run.advance(Report::SendFailed("closed".to_string())) {
        Step::Failed(e) => {
            assert_eq!(e.message(), "failed to emit output 'b': send_output failed: closed")
        }
        other => panic!("expected a failure, got {other:?}"),
    }
}
