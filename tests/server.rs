use powhll::server::{AggregateStore, MergeError, NewFunction, StoredFunction, Witness};
use powhll::EMPTY_REGISTER;

#[test]
fn concurrent_merges_keep_the_lower_hash() {
    let mut row = StoredFunction::new(1, 2, "f".to_string(), 4);
    row.merge(0, 0xC7);
    let base = row.submitted_updates();
    assert!(row.merge(1, 0xA7).improved);
    let outcome = row.merge(2, 0x87);
    assert!(outcome.improved);
    assert_eq!(row.registers()[7], 0x87);
    assert_eq!(row.submitted_updates(), base + 2);
    assert_eq!(outcome.submitted_updates, base + 2);
    assert_eq!(row.lowest(), Some(Witness { seed: 2, hash: 0x87 }));
    // 0x87 >> 4 == 8: 60 leading zeros, rho = 57, weight 2^7.
    assert_eq!(outcome.scaled_sum, 128);
}

#[test]
fn merge_that_does_not_improve_writes_nothing() {
    let mut row = StoredFunction::new(1, 2, "f".to_string(), 4);
    row.merge(5, 0x87);
    let outcome = row.merge(6, 0xA7);
    assert!(!outcome.improved);
    assert_eq!(outcome.submitted_updates, 1);
    assert_eq!(row.registers()[7], 0x87);
    assert_eq!(row.lowest(), Some(Witness { seed: 5, hash: 0x87 }));
}

#[test]
fn unknown_function_without_creation_is_not_found() {
    let mut store = AggregateStore::new();
    assert_eq!(store.submit(3, None, 1, 2), Err(MergeError::FunctionNotFound));
    assert_eq!(store.len(), 0);
}

#[test]
fn unknown_function_is_created_with_default_bits() {
    let mut store = AggregateStore::new();
    let created = NewFunction { wasm_file_id: 8, name: "hash_twist".to_string() };
    let outcome = store.submit(3, Some(created), 1, 0x21).unwrap();
    assert!(outcome.improved);
    assert_eq!(outcome.submitted_updates, 1);
    assert_eq!(store.len(), 1);
    let row = store.get(0);
    assert_eq!(row.function_id(), 3);
    assert_eq!(row.wasm_file_id(), 8);
    assert_eq!(row.name(), "hash_twist");
    assert_eq!(row.bits(), 5);
    assert_eq!(row.registers().len(), 32);
    assert_eq!(row.registers()[1], 0x21);
    assert_eq!(row.registers()[0], EMPTY_REGISTER);
}

#[test]
fn existing_function_is_merged() {
    let mut store = AggregateStore::new();
    store.insert(StoredFunction::new(4, 1, "g".to_string(), 2));
    let outcome = store.submit(4, None, 9, 0x6).unwrap();
    assert!(outcome.improved);
    assert_eq!(outcome.submitted_updates, 1);
    assert_eq!(store.get(0).lowest(), Some(Witness { seed: 9, hash: 0x6 }));
    assert_eq!(store.get(0).name(), "g");
    let again = store.submit(4, None, 10, 0xA).unwrap();
    assert!(!again.improved);
    assert_eq!(again.submitted_updates, 1);
    assert_eq!(store.get(0).registers(), &[EMPTY_REGISTER, EMPTY_REGISTER, 0x6, EMPTY_REGISTER]);
    assert_eq!(store.find(4), Some(0));
    assert_eq!(store.find(5), None);
}
