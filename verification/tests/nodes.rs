use arrow::array::{make_array, Array, Int64Array};
use dora_test_utils::{
    classify, classify_values, parse_steps, parse_threshold, react, EventKind, Label, Reaction,
    StepsError, TrajectoryNode, JOINTS,
};

fn args(words: &[&str]) -> Vec<String> {
    words.iter().map(|w| w.to_string()).collect()
}

#[test]
fn values_above_the_threshold_are_high() {
    assert_eq!(classify(51, 50), Label::High);
    assert_eq!(classify(50, 50), Label::Low);
    assert_eq!(classify(i64::MIN, i64::MAX), Label::Low);
    assert_eq!(Label::High.as_str(), "high");
    assert_eq!(Label::Low.as_str(), "low");
}

#[test]
fn each_value_is_an_array_of_its_own() {
    let classified = classify_values(&vec![10, 90, 50], 50);
    let labels: Vec<Label> = classified.iter().map(|c| c.label).collect();
    assert_eq!(labels, vec![Label::Low, Label::High, Label::Low]);
    for (c, value) in classified.iter().zip([10, 90, 50]) {
        let array = make_array(c.array.clone());
        assert_eq!(array.len(), 1);
        assert_eq!(array.as_any().downcast_ref::<Int64Array>().unwrap().value(0), value);
    }
    assert!(classify_values(&vec![], 50).is_empty());
}

#[test]
fn threshold_defaults_to_fifty() {
    assert_eq!(parse_threshold(None), 50);
    assert_eq!(parse_threshold(Some("-7")), -7);
    assert_eq!(parse_threshold(Some("+7")), 7);
    assert_eq!(parse_threshold(Some("9223372036854775807")), i64::MAX);
    assert_eq!(parse_threshold(Some("9223372036854775808")), 50);
    for text in ["", "-", "+", "7 ", "seven", "1_000", "--7"] {
        assert_eq!(parse_threshold(Some(text)), 50);
    }
}

#[test]
fn steps_are_read_from_the_command_line() {
    assert_eq!(parse_steps(&args(&["node"])).unwrap(), 10);
    assert_eq!(parse_steps(&args(&[])).unwrap(), 10);
    assert_eq!(parse_steps(&args(&["--steps"])).unwrap(), 10);
    assert_eq!(parse_steps(&args(&["node", "--steps", "5"])).unwrap(), 5);
    assert_eq!(parse_steps(&args(&["node", "--steps", "+5", "x"])).unwrap(), 5);
    assert_eq!(parse_steps(&args(&["node", "--steps", "5", "--steps", "6"])).unwrap(), 6);
    assert_eq!(parse_steps(&args(&["node", "--steps", "0", "--steps", "6"])).unwrap(), 6);
}

#[test]
fn bad_steps_are_refused() {
    let e = parse_steps(&args(&["node", "--steps"])).unwrap_err();
    assert!(matches!(e, StepsError::Missing));
    assert_eq!(e.message(), "--steps requires a value");
    let e = parse_steps(&args(&["node", "--steps", "0"])).unwrap_err();
    assert!(matches!(e, StepsError::Zero));
    assert_eq!(e.message(), "--steps must be >= 1");
    for raw in ["", "-1", "ten", "--steps", "99999999999999999999999"] {
        let e = parse_steps(&args(&["node", "--steps", raw])).unwrap_err();
        assert!(matches!(e, StepsError::Invalid { .. }));
        let reason = raw.parse::<usize>().unwrap_err();
        assert_eq!(e.message(), format!("invalid --steps value '{raw}': {reason}"));
    }
}

#[test]
fn two_targets_in_ten_steps_give_one_hundred_and_forty_scalars() {
    let mut node = TrajectoryNode::new(10);
    let mut sent = 0;
    for n in 0..14 {
        if let Some(mut m) = node.receive(n) {
            while m.next_waypoint().is_some() {
                sent += 1;
            }
            assert!(m.next_waypoint().is_none());
        }
    }
    assert_eq!(sent, 140);
}

#[test]
fn moves_go_from_target_to_target() {
    let mut node = TrajectoryNode::new(2);
    let mut moves = Vec::new();
    for n in 1..=16 {
        if let Some(m) = node.receive(n) {
            moves.push((n, m));
        }
    }
    assert_eq!(moves.iter().map(|(n, _)| *n).collect::<Vec<u64>>(), vec![7, 14]);
    for (k, (_, mut m)) in moves.into_iter().enumerate() {
        for step in 1..=2 {
            for joint in 0..JOINTS {
                let w = m.next_waypoint().unwrap();
                assert_eq!((w.step, w.joint, w.steps), (step, joint, 2));
                let from = if k == 0 { 0 } else { joint as u64 + 1 };
                assert_eq!(w.from, from);
                assert_eq!(w.to, (k * JOINTS + joint) as u64 + 1);
            }
        }
        assert!(m.next_waypoint().is_none());
    }
}

#[test]
fn only_stop_ends_the_loop_of_a_node() {
    assert_eq!(react(EventKind::Input), Reaction::Process);
    assert_eq!(react(EventKind::Stop), Reaction::Leave);
    assert_eq!(react(EventKind::InputClosed), Reaction::Ignore);
    assert_eq!(react(EventKind::Other), Reaction::Ignore);
}
