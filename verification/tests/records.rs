use rust_samples::decimal::decimal_bytes;
use rust_samples::line_writer::{line_record, LineBatch, LINES_PER_TASK};
use rust_samples::task_gate::{GateAction, TaskGate, MAX_TASKS};

#[test]
fn decimal_of_zero_is_one_digit() {
    assert_eq!(decimal_bytes(0), b"0".to_vec());
}

#[test]
fn decimal_matches_to_string() {
    for n in [1u64, 9, 10, 42, 1000, 1725029869, u64::MAX] {
        assert_eq!(decimal_bytes(n), n.to_string().into_bytes());
    }
}

#[test]
fn record_is_seconds_underscore_index_then_two_newlines() {
    let chunks = line_record(1700000000, 42);
    assert_eq!(chunks.len(), 3);
    assert_eq!(chunks[0], b"1700000000_42".to_vec());
    assert_eq!(chunks[1], b"\n".to_vec());
    assert_eq!(chunks[2], b"\n".to_vec());
}

#[test]
fn record_with_index_zero() {
    let chunks = line_record(5, 0);
    assert_eq!(chunks[0], b"5_0".to_vec());
}

#[test]
fn batch_hands_out_every_record_once_in_order() {
    let mut batch = LineBatch::new();
    let mut count: u64 = 0;
    while !batch.is_done() {
        let chunks = batch.next_record(100).unwrap();
        assert_eq!(chunks[0], format!("100_{}", count).into_bytes());
        count += 1;
    }
    assert_eq!(count, LINES_PER_TASK);
    assert!(batch.next_record(101).is_none());
    assert!(batch.is_done());
}

#[test]
fn batch_stamps_each_record_with_the_time_given() {
    let mut batch = LineBatch::new();
    let first = batch.next_record(10).unwrap();
    let second = batch.next_record(11).unwrap();
    assert_eq!(first[0], b"10_0".to_vec());
    assert_eq!(second[0], b"11_1".to_vec());
}

#[test]
fn gate_spawns_until_the_limit_then_joins() {
    let mut gate = TaskGate::new(MAX_TASKS);
    for _ in 0..MAX_TASKS {
        assert_eq!(gate.next_action(), GateAction::Spawn);
        gate.record_spawn();
    }
    assert_eq!(gate.in_flight(), 200);
    assert_eq!(gate.next_action(), GateAction::JoinOne);
    gate.record_join(true);
    assert_eq!(gate.in_flight(), 199);
    assert_eq!(gate.next_action(), GateAction::Spawn);
}

#[test]
fn gate_join_without_a_finished_task_changes_nothing() {
    let mut gate = TaskGate::new(2);
    gate.record_spawn();
    gate.record_join(false);
    assert_eq!(gate.in_flight(), 1);
}

#[test]
fn gate_with_no_room_never_spawns() {
    let gate = TaskGate::new(0);
    assert_eq!(gate.next_action(), GateAction::JoinOne);
}

#[test]
fn whole_batch_is_every_record_with_its_stamp() {
    let mut batch = LineBatch::new();
    let mut written: Vec<u8> = Vec::new();
    let mut expected = String::new();
    let mut clock: u64 = 1_700_000_000;
    let mut index: u64 = 0;
    while !batch.is_done() {
        for chunk in batch.next_record(clock).unwrap() {
            written.extend_from_slice(&chunk);
        }
        expected.push_str(&format!("{}_{}\n\n", clock, index));
        index += 1;
        if index % 7 == 0 {
            clock += 1;
        }
    }
    assert_eq!(index, 1000);
    assert_eq!(written, expected.into_bytes());
}
