use powhll::bank::FunctionInfo;
use powhll::catalog::{effective_bits, parse_hashes, pick_file, repository_order, CatalogFile};
use powhll::client;
use powhll::decimal::{decimal_string, parse_u64};
use powhll::seeds::{next_seed, splitmix64, worker_seed_state};
use powhll::urls::{endpoint, split_repo_name};
use powhll::worker::is_stop_key;
use powhll::LocalHyperLogLog;

#[test]
fn splitmix_known_values() {
    assert_eq!(splitmix64(0), 0xe220a8397b1dcdaf);
    let mut state = 0u64;
    let seed = next_seed(&mut state);
    assert_eq!(state, 0x9e3779b97f4a7c15);
    assert_eq!(seed, splitmix64(0x9e3779b97f4a7c15));
    assert_eq!(worker_seed_state(3), splitmix64(0x1234_5678_abcd_ef01 ^ 3));
    assert_ne!(worker_seed_state(0), worker_seed_state(1));
}

#[test]
fn endpoint_joins_with_one_slash() {
    assert_eq!(endpoint("https://x.org//", "/api/repositories"), "https://x.org/api/repositories");
    assert_eq!(endpoint("https://x.org", "api"), "https://x.org/api");
    assert_eq!(endpoint("", ""), "/");
}

#[test]
fn repo_names_split_at_first_slash() {
    assert_eq!(split_repo_name("owner/name"), ("owner".to_string(), "name".to_string()));
    assert_eq!(split_repo_name("a/b/c"), ("a".to_string(), "b/c".to_string()));
    assert_eq!(split_repo_name("solo"), ("solo".to_string(), "unknown".to_string()));
    assert_eq!(split_repo_name("/x"), ("".to_string(), "x".to_string()));
}

#[test]
fn decimal_parse_and_format() {
    assert_eq!(parse_u64("18446744073709551615"), Some(u64::MAX));
    assert_eq!(parse_u64("18446744073709551616"), None);
    assert_eq!(parse_u64("+12"), Some(12));
    assert_eq!(parse_u64(""), None);
    assert_eq!(parse_u64("+"), None);
    assert_eq!(parse_u64("-1"), None);
    assert_eq!(parse_u64("1 "), None);
    assert_eq!(parse_u64("007"), Some(7));
    assert_eq!(decimal_string(0), "0");
    assert_eq!(decimal_string(u64::MAX), u64::MAX.to_string());
    assert_eq!(decimal_string(1020), "1020");
}

#[test]
fn server_hashes_keep_positions() {
    let values = vec!["3".to_string(), "oops".to_string(), "18446744073709551615".to_string()];
    assert_eq!(parse_hashes(&values), vec![3, u64::MAX, u64::MAX]);
    let values = vec!["x".to_string(), "5".to_string()];
    assert_eq!(parse_hashes(&values), vec![u64::MAX, 5]);
}

#[test]
fn effective_bits_prefers_server() {
    assert_eq!(effective_bits(Some(8), 12), 8);
    assert_eq!(effective_bits(Some(0), 10), 10);
    assert_eq!(effective_bits(None, 10), 12);
}

#[test]
fn pick_file_takes_a_callable_file() {
    let f = FunctionInfo { id: 1, wasm_file_id: 2, name: "h".to_string() };
    let files = vec![
        CatalogFile { id: 1, functions: vec![] },
        CatalogFile { id: 2, functions: vec![f.clone()] },
        CatalogFile { id: 3, functions: vec![] },
    ];
    let chosen = pick_file(files).unwrap();
    assert_eq!(chosen.id, 2);
    assert!(pick_file(vec![CatalogFile { id: 4, functions: vec![] }]).is_none());
}

#[test]
fn repository_order_is_a_permutation() {
    let repos: Vec<String> = (0..20).map(|i| format!("o/r{i}")).collect();
    let mut order = repository_order(repos.clone()).unwrap();
    order.sort();
    let mut expected = repos;
    expected.sort();
    assert_eq!(order, expected);
    assert!(repository_order(vec![]).is_none());
}

#[test]
fn local_sketch_filters() {
    let mut local = LocalHyperLogLog::new(4);
    assert!(local.add_hash(0x31));
    assert!(!local.add_hash(0x41));
    assert!(local.add_hash(0x21));
}

#[test]
fn client_sketch_tracks_minimum() {
    let mut hll = client::HyperLogLog::new(4);
    hll.add(1, 0x13);
    hll.add(2, 0x23);
    assert_eq!(hll.hashes()[3], 0x13);
    assert_eq!(hll.hashes().len(), 16);
}

#[test]
fn client_sketch_clamps_bits() {
    assert_eq!(client::HyperLogLog::new(0).hashes().len(), 2);
    assert_eq!(client::HyperLogLog::new(30).hashes().len(), 1 << 20);
}

#[test]
fn stop_keys() {
    assert!(is_stop_key(3));
    assert!(is_stop_key(b'q'));
    assert!(is_stop_key(b'Q'));
    assert!(!is_stop_key(b'x'));
}
