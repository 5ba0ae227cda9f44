use std::collections::VecDeque;

use arrow::array::Int32Array;
use dora_test_utils::{
    Completion, EventKind, FiniteDouble, HarnessError, IncomingEvent, InputData, JsonValue, NodeHarness, Number,
    OutputMap, Startup, TimedIncomingEvent,
};

fn integer(n: u64) -> JsonValue {
    JsonValue::Number(Number::PosInt(n))
}

fn text(s: &str) -> JsonValue {
    JsonValue::String(s.to_string())
}

fn list(values: Vec<u64>) -> JsonValue {
    JsonValue::Array(values.into_iter().map(integer).collect())
}

fn doubles(values: Vec<f64>) -> JsonValue {
    let double = |x: f64| Number::Float(FiniteDouble::from_bits(x.to_bits()).unwrap());
    JsonValue::Array(values.into_iter().map(|x| JsonValue::Number(double(x))).collect())
}

fn list_of(array: &Int32Array) -> JsonValue {
    list(array.values().iter().map(|v| *v as u64).collect())
}

fn message(id: JsonValue, data: JsonValue) -> OutputMap {
    OutputMap { members: vec![("id".to_string(), id), ("data".to_string(), data)] }
}

fn id_of(output: &OutputMap) -> Option<String> {
    match output.get("id") {
        Some(JsonValue::String(id)) => Some(id.clone()),
        _ => None,
    }
}

fn is_input(event: &TimedIncomingEvent) -> bool {
    matches!(event.event, IncomingEvent::Input { .. })
}

fn is_stop(event: &TimedIncomingEvent) -> bool {
    matches!(event.event, IncomingEvent::Stop)
}

fn kind_of(event: &TimedIncomingEvent) -> EventKind {
    match event.event {
        IncomingEvent::Stop => EventKind::Stop,
        IncomingEvent::Input { .. } => EventKind::Input,
        IncomingEvent::InputClosed { .. } => EventKind::InputClosed,
        IncomingEvent::AllInputsClosed => EventKind::Other,
    }
}

/// A node that receives the events it is created with and captures what it is made to send.
struct Loopback {
    harness: NodeHarness,
    stream: VecDeque<TimedIncomingEvent>,
    captured: Vec<OutputMap>,
}

impl Loopback {
    fn new() -> Result<Self, HarnessError> {
        Ok(Loopback {
            harness: NodeHarness::new()?,
            stream: VecDeque::new(),
            captured: Vec::new(),
        })
    }

    fn send_data(&mut self, input_id: &str, data: JsonValue) {
        if let Err(e) = NodeHarness::check_input_id(input_id) {
            panic!("{}", e.message());
        }
        self.harness.send_data(input_id, InputData::JsonObject { data, data_type: None });
    }

    fn send_stop(&mut self) {
        self.harness.send_stop();
    }

    fn create(&mut self, startup: Option<Startup>) {
        if let Some(startup) = startup {
            assert_eq!(startup.node_id, "test-node");
            assert!(startup.skip_output_time_offsets);
            self.stream = startup.events.into();
        }
    }

    fn check_deliverable(&self) {
        if let Err(e) = self.harness.check_deliverable() {
            panic!("{}", e.message());
        }
    }

    fn tick(&mut self) -> Option<TimedIncomingEvent> {
        self.check_deliverable();
        let startup = self.harness.tick();
        self.create(startup);
        let event = self.stream.pop_front();
        self.harness.collect_pending_outputs(std::mem::take(&mut self.captured));
        event
    }

    fn run_to_completion(&mut self) -> Vec<TimedIncomingEvent> {
        self.check_deliverable();
        let startup = self.harness.run_to_completion();
        self.create(startup);
        let mut run = Completion::new();
        while !run.is_over() {
            match self.stream.pop_front() {
                Some(event) => {
                    let kind = kind_of(&event);
                    run.receive(event, kind);
                }
                None => break,
            }
        }
        self.harness.collect_pending_outputs(std::mem::take(&mut self.captured));
        run.into_events()
    }

    fn send_output(&mut self, output_id: &str, data: JsonValue) -> Result<(), HarnessError> {
        self.check_deliverable();
        let startup = self.harness.send_output(output_id)?;
        self.create(startup);
        self.captured.push(message(text(output_id), data));
        Ok(())
    }

    fn recv_output(&mut self, output_id: &str) -> Option<Vec<OutputMap>> {
        self.harness.recv_output(output_id, std::mem::take(&mut self.captured))
    }
}

#[test]
fn test_send_data_json() {
    let mut harness = Loopback::new().expect("harness should be created");

    harness.send_data("test_id", list(vec![1, 2, 3]));

    // First tick triggers deferred init and returns the buffered Input.
    let event = harness.tick().expect("should receive Input event");
    match event.event {
        IncomingEvent::Input { id, data, .. } => {
            assert_eq!(id, "test_id");
            match data {
                Some(InputData::JsonObject { data: JsonValue::Array(items), .. }) => {
                    assert!(!items.is_empty(), "data should be non-empty")
                }
                other => panic!("expected JSON data, got {other:?}"),
            }
        }
        other => panic!("expected Input event, got {other:?}"),
    }
}

#[test]
fn test_send_data_arrow() {
    let mut harness = Loopback::new().expect("harness should be created");

    let array = Int32Array::from(vec![42, 99]);
    harness.send_data("arrow_in", list_of(&array));

    let event = harness.tick().expect("should receive Input event");
    match event.event {
        IncomingEvent::Input { id, data, .. } => {
            assert_eq!(id, "arrow_in");
            match data {
                Some(InputData::JsonObject { data: JsonValue::Array(items), .. }) => {
                    assert!(!items.is_empty(), "data should be non-empty")
                }
                other => panic!("expected JSON data, got {other:?}"),
            }
        }
        other => panic!("expected Input event, got {other:?}"),
    }
}

#[test]
#[should_panic(expected = "injected after the node was already")]
fn test_post_init_send_data_panics() {
    // After tick() creates the node, send_data() must not go unnoticed: the
    // events could never be delivered.
    let mut harness = Loopback::new().expect("harness should be created");
    harness.send_data("first", list(vec![1]));
    harness.tick(); // node init happens here
    harness.send_data("second", list(vec![2]));
    harness.tick(); // must panic here
}

#[test]
#[should_panic(expected = "invalid input_id")]
fn test_send_data_invalid_input_id() {
    let mut harness = Loopback::new().expect("harness should be created");
    harness.send_data("not a valid id!!!", list(vec![1]));
}

#[test]
fn test_recv_output_nonexistent() {
    let mut harness = Loopback::new().expect("harness should be created");
    harness.send_stop();
    harness.run_to_completion();
    let result = harness.recv_output("nonexistent");
    assert!(result.is_none());
}

#[test]
fn test_send_output_invalid_id() {
    let mut harness = Loopback::new().expect("harness should be created");
    harness.send_stop();
    harness.run_to_completion();
    let result = harness.send_output("bad id !!!", list(vec![1]));
    assert!(result.is_err());
    assert!(
        result.unwrap_err().message().contains("invalid output_id"),
        "error should mention invalid output_id"
    );
}

#[test]
fn e2e_receive_input_and_stop() {
    let mut harness = Loopback::new().expect("NodeHarness::new should succeed");
    harness.send_data("numbers", list(vec![1, 2, 3]));
    harness.send_stop();

    let event = harness.tick().expect("tick should return an event");
    match event.event {
        IncomingEvent::Input { id, data, .. } => {
            assert_eq!(id, "numbers");
            match data {
                Some(InputData::JsonObject { data: JsonValue::Array(items), .. }) => {
                    assert!(!items.is_empty(), "input data should be non-empty")
                }
                other => panic!("expected JSON data, got {other:?}"),
            }
        }
        other => panic!("expected Input event, got {other:?}"),
    }

    let event = harness.tick().expect("tick should return Stop");
    assert!(is_stop(&event), "expected Stop event, got {event:?}");

    assert!(
        harness.tick().is_none(),
        "stream should be exhausted after Stop"
    );
}

#[test]
fn e2e_send_output_and_recv() {
    let mut harness = Loopback::new().expect("NodeHarness::new should succeed");
    let output_id = "test_output";
    harness
        .send_output(output_id, list(vec![10, 20, 30]))
        .expect("send_output should succeed");

    let outputs = harness
        .recv_output(output_id)
        .expect("should have captured output for 'test_output'");
    assert_eq!(outputs.len(), 1, "expected one output message");
    assert!(
        outputs[0].contains_key("data"),
        "output should contain data"
    );
    assert!(outputs[0].contains_key("id"), "output should contain id");
    assert_eq!(
        id_of(&outputs[0]).as_deref(),
        Some("test_output"),
        "output id should match"
    );
}

#[test]
fn e2e_run_to_completion_returns_events() {
    let mut harness = Loopback::new().expect("NodeHarness::new should succeed");
    harness.send_data("step1", list(vec![42]));

    // No need to call send_stop(): run_to_completion handles it.
    let events = harness.run_to_completion();
    assert!(
        events.len() >= 2,
        "expected at least 2 events (Input + Stop), got {}",
        events.len()
    );
    assert!(events.iter().any(is_input), "should contain an Input event");
    assert!(events.iter().any(is_stop), "should contain a Stop event");

    harness
        .send_output("post_run", list(vec![99]))
        .expect("send_output should succeed after run_to_completion");
    let outputs = harness.recv_output("post_run");
    assert!(outputs.is_some(), "should have captured output after run");
}

#[test]
fn e2e_full_pipeline_input_to_output() {
    let mut harness = Loopback::new().expect("NodeHarness::new should succeed");
    harness.send_data("data_in", list(vec![1, 2, 3, 4, 5]));

    let events = harness.run_to_completion();
    assert!(events.iter().any(is_input), "should have received Input");
    assert!(events.iter().any(is_stop), "should have received Stop");

    harness
        .send_output("results", doubles(vec![1.1, 2.2, 3.3]))
        .expect("send_output should succeed after run_to_completion");
    harness
        .send_output("results", doubles(vec![4.4, 5.5]))
        .expect("second send_output should also succeed");

    let outputs = harness
        .recv_output("results")
        .expect("should have captured outputs for 'results'");
    assert_eq!(outputs.len(), 2, "expected 2 output messages for 'results'");
    for output in &outputs {
        assert!(
            output.contains_key("data"),
            "each output should contain 'data'"
        );
    }
}

#[test]
fn e2e_send_data_arrow_input() {
    let mut harness = Loopback::new().expect("NodeHarness::new should succeed");
    let array = Int32Array::from(vec![100, 200, 300]);
    harness.send_data("arrow_numbers", list_of(&array));
    harness.send_stop();

    let event = harness.tick().expect("should receive Input");
    match event.event {
        IncomingEvent::Input { id, data: Some(data), .. } => {
            assert_eq!(id, "arrow_numbers");
            let debug_str = format!("{data:?}");
            match data {
                InputData::JsonObject { data: JsonValue::Array(items), .. } => {
                    assert!(!items.is_empty(), "data should be non-empty");
                    assert_eq!(items.len(), 3, "expected 3 elements after round-trip");
                }
                other => panic!("expected JSON data, got {other:?}"),
            }
            assert!(debug_str.contains("100"), "missing value 100 in {debug_str}");
            assert!(debug_str.contains("200"), "missing value 200 in {debug_str}");
            assert!(debug_str.contains("300"), "missing value 300 in {debug_str}");
        }
        other => panic!("expected Input, got {other:?}"),
    }
}

#[test]
fn events_are_given_once_and_in_order() {
    let mut harness = NodeHarness::new().unwrap();
    harness.send_data("a", InputData::JsonObject { data: integer(1), data_type: Some(text("Int8")) });
    harness.send_input(TimedIncomingEvent {
        time_offset_bits: 1.5f64.to_bits(),
        event: IncomingEvent::InputClosed { id: "a".to_string() },
    });
    harness.close_input();
    let startup = harness.run_to_completion().expect("the node is created now");
    assert_eq!(startup.events.len(), 3);
    assert_eq!(startup.events[0].time_offset_bits, 0.0f64.to_bits());
    assert!(is_input(&startup.events[0]));
    assert_eq!(startup.events[1].time_offset_bits, 1.5f64.to_bits());
    assert!(matches!(&startup.events[1].event, IncomingEvent::InputClosed { id } if id == "a"));
    assert!(is_stop(&startup.events[2]));
    assert!(harness.tick().is_none());
    assert!(harness.run_to_completion().is_none());
    assert!(harness.send_output("b").unwrap().is_none());
    assert!(harness.check_deliverable().is_ok());
    harness.send_stop();
    let e = harness.check_deliverable().unwrap_err();
    assert!(matches!(e, HarnessError::Undelivered { count: 1 }));
    assert_eq!(
        e.message(),
        "NodeHarness: 1 event(s) injected after the node was already initialized — they can \
         never be delivered.  Call send_data/send_stop BEFORE the first \
         tick/run_to_completion/send_output."
    );
}

#[test]
fn refused_output_creates_no_node() {
    let mut harness = NodeHarness::new().unwrap();
    harness.send_stop();
    let e = harness.send_output("a//b").unwrap_err();
    assert_eq!(
        e.message(),
        "invalid output_id 'a//b': identifier 'a//b' has empty path segment -- \
         leading, trailing, or consecutive '/' are not allowed"
    );
    assert_eq!(harness.tick().expect("the node is created now").events.len(), 1);
}

#[test]
fn refused_output_comes_before_late_events() {
    let mut harness = NodeHarness::new().unwrap();
    assert!(harness.tick().is_some());
    harness.send_stop();
    assert!(harness.check_deliverable().is_err());
    let e = harness.send_output("a b").unwrap_err();
    assert!(matches!(e, HarnessError::InvalidOutputId { .. }));
    assert!(harness.check_deliverable().is_err());
}

#[test]
fn node_is_started_once() {
    let mut harness = NodeHarness::new().unwrap();
    harness.send_stop();
    let startup = harness.ensure_init().expect("the node is created now");
    assert_eq!(startup.node_id, "test-node");
    assert_eq!(startup.events.len(), 1);
    assert!(harness.ensure_init().is_none());
    assert!(harness.check_deliverable().is_ok());
    assert!(harness.tick().is_none());
}

#[test]
fn refused_input_id_is_explained() {
    assert!(NodeHarness::check_input_id("camera/image").is_ok());
    assert_eq!(
        NodeHarness::check_input_id("a b").unwrap_err().message(),
        "NodeHarness::send_data: invalid input_id 'a b': identifier contains invalid character \
         ' ' -- only [a-zA-Z0-9_./-] are allowed"
    );
}

#[test]
fn outputs_are_filed_by_id_and_handed_out_once() {
    let mut harness = NodeHarness::new().unwrap();
    harness.collect_pending_outputs(vec![
        message(text("x"), integer(1)),
        message(text("y"), integer(2)),
        message(text("x"), integer(3)),
        message(integer(7), integer(4)),
        OutputMap { members: vec![] },
    ]);
    let x = harness
        .recv_output("x", vec![message(text("x"), integer(5)), message(text("y"), integer(6))])
        .unwrap();
    let data: Vec<String> = x.iter().map(|o| o.get("data").unwrap().to_text()).collect();
    assert_eq!(data, vec!["1", "3", "5"]);
    assert!(x.iter().all(|o| id_of(o) == Some("x".to_string())));
    assert!(harness.recv_output("x", vec![]).is_none());
    let y = harness.recv_output("y", vec![]).unwrap();
    let data: Vec<String> = y.iter().map(|o| o.get("data").unwrap().to_text()).collect();
    assert_eq!(data, vec!["2", "6"]);
    assert_eq!(harness.recv_output("<missing-id>", vec![]).unwrap().len(), 2);
    assert!(harness.recv_output("<missing-id>", vec![]).is_none());
}

#[test]
fn completion_stops_at_the_first_last_event() {
    let mut run = Completion::new();
    assert!(!run.is_over());
    run.receive("a", EventKind::Input);
    run.receive("b", EventKind::Other);
    assert!(!run.is_over());
    run.receive("c", EventKind::InputClosed);
    assert!(run.is_over());
    assert_eq!(run.into_events(), vec!["a", "b", "c"]);
    let run: Completion<u8> = Completion::new();
    assert!(run.into_events().is_empty());
}
