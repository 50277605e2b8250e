use powhll::bank::{FunctionInfo, SubmissionOrder, SubmissionState};
use powhll::pipeline::{acknowledge, next_step, AttemptOutcome, AttemptStep};
use powhll::EMPTY_REGISTER;

fn info(id: i64) -> FunctionInfo {
    FunctionInfo { id, wasm_file_id: 70, name: format!("hash_{id}") }
}

fn bank(bits: u8, ids: &[i64]) -> SubmissionState {
    SubmissionState::new(bits, ids.iter().map(|&id| info(id)).collect())
}

#[test]
fn first_improvement_is_submitted_then_suppressed() {
    let mut state = bank(4, &[1]);
    assert!(state.update_local(0, 0xA, 11));
    let sub = state.next_submission().expect("an improvement");
    assert_eq!(sub.register, 10);
    assert_eq!(sub.hash, 0xA);
    assert_eq!(sub.seed, 11);
    assert_eq!(sub.function_id, 1);
    assert_eq!(sub.wasm_file_id, 70);
    assert_eq!(sub.function_name, "hash_1");
    let step = next_step(1, AttemptOutcome::Accepted { improved: true });
    assert_eq!(step, AttemptStep::Acknowledged { improved: true });
    acknowledge(&mut state, &sub, step);
    assert!(state.next_submission().is_none());
    assert!(!state.update_local(0, 0xA, 12));
}

#[test]
fn no_op_sample_is_not_enqueued() {
    let mut state = bank(4, &[1]);
    state.initialize_server_hashes(1, &[0x100]);
    assert!(!state.update_local(0, 0x100, 1));
    assert!(state.next_submission().is_none());
    assert!(!state.update_local(0, 0x200, 2));
    assert!(state.next_submission().is_none());
}

#[test]
fn stale_local_sample_is_not_submitted() {
    let mut state = bank(4, &[1]);
    let mut mirror = vec![EMPTY_REGISTER; 16];
    mirror[5] = 0x50;
    state.initialize_server_hashes(1, &mirror);
    assert!(!state.update_local(0, 0x65, 1));
    assert!(!state.update_local(0, 0x55, 2));
    assert!(state.next_submission().is_none());
}

#[test]
fn rejected_submission_leaves_mirror() {
    let mut state = bank(4, &[1]);
    assert!(state.update_local(0, 0x13, 4));
    let sub = state.next_submission().unwrap();
    let step = next_step(1, AttemptOutcome::Status { code: 404 });
    acknowledge(&mut state, &sub, step);
    assert_eq!(state.next_submission().unwrap().hash, 0x13);
}

#[test]
fn largest_improvement_first_by_default() {
    let mut state = bank(4, &[1, 2]);
    state.update_local(0, 0x21, 1);
    state.update_local(1, 0x42, 2);
    state.update_local(0, 0x33, 3);
    let sub = state.next_submission().unwrap();
    assert_eq!((sub.slot_index, sub.hash), (1, 0x42));
}

#[test]
fn smallest_improvement_first_when_asked() {
    let mut state = bank(4, &[1, 2]);
    state.set_order(SubmissionOrder::SmallestFirst);
    state.update_local(0, 0x21, 1);
    state.update_local(1, 0x42, 2);
    state.update_local(0, 0x33, 3);
    let sub = state.next_submission().unwrap();
    assert_eq!((sub.slot_index, sub.hash), (0, 0x21));
}

#[test]
fn equal_hashes_pick_the_first_slot() {
    let mut state = bank(4, &[1, 2]);
    state.update_local(1, 0x42, 2);
    state.update_local(0, 0x42, 1);
    let sub = state.next_submission().unwrap();
    assert_eq!(sub.slot_index, 0);
    assert_eq!(sub.seed, 1);
}

#[test]
fn mark_server_seen_only_lowers() {
    let mut state = bank(4, &[1]);
    state.update_local(0, 0x31, 1);
    state.mark_server_seen(0, 1, 0x11);
    assert!(state.next_submission().is_none());
    state.mark_server_seen(0, 1, 0x51);
    assert!(state.next_submission().is_none());
    state.mark_server_seen(9, 1, 0x01);
    assert_eq!(state.slot_count(), 1);
}

#[test]
fn initialize_targets_last_slot_with_id() {
    let mut state = bank(2, &[5, 5]);
    state.update_local(0, 0x4, 1);
    state.update_local(1, 0x4, 2);
    state.initialize_server_hashes(5, &[0x0]);
    let sub = state.next_submission().unwrap();
    assert_eq!(sub.slot_index, 0);
    assert_eq!(state.slot_for_function(5), Some(1));
    assert_eq!(state.slot_for_function(6), None);
}

#[test]
fn register_for_hash_uses_low_bits() {
    let state = bank(4, &[1]);
    assert_eq!(state.register_for_hash(0x1234), 4);
    assert_eq!(state.register_for_hash(u64::MAX), 15);
}
