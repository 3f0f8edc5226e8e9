use std::collections::BTreeMap;

use hello_rust_backend::cluster_management::{
    all_sync_lock_records_request, all_worker_records_request, balancer_txns,
    cluster_members_count_request, confirmed_owned_partitions, parse_partition_number,
    partition_of_lock_key, record_node_membership_request, replica_key_bytes,
    sync_lock_claim_txn, sync_lock_key_bytes, sync_lock_reconciliation_txns,
    sync_lock_release_txn, sync_records_to_claim_or_not, worker_index,
};
use hello_rust_backend::etcd::{
    calculate_prefix_range_end, Compare, KeyValue, PutRequest, RequestOp, TxnRequest,
};

/// A key-value store with etcd's single-key transaction semantics, for replaying scenarios.
#[derive(Default, Clone)]
struct Store {
    kvs: BTreeMap<Vec<u8>, (Vec<u8>, i64)>,
}

impl Store {
    fn put(&mut self, put: PutRequest) {
        self.kvs.insert(put.key, (put.value, put.lease));
    }

    /// Runs the transaction; returns whether its condition held.
    fn txn(&mut self, txn: &TxnRequest) -> bool {
        let holds = match &txn.compare {
            Compare::VersionIsZero => !self.kvs.contains_key(&txn.key),
            Compare::ValueEquals(v) => self.kvs.get(&txn.key).map(|e| &e.0) == Some(v),
        };
        if holds {
            match &txn.on_success {
                RequestOp::Put { value, lease } => {
                    self.kvs.insert(txn.key.clone(), (value.clone(), *lease));
                }
                RequestOp::Delete => {
                    self.kvs.remove(&txn.key);
                }
            }
        }
        holds
    }

    fn range(&self, key: &[u8], range_end: &[u8]) -> Vec<KeyValue> {
        self.kvs
            .iter()
            .filter(|(k, _)| k.as_slice() >= key && k.as_slice() < range_end)
            .map(|(k, v)| KeyValue { key: k.clone(), value: v.0.clone() })
            .collect()
    }

    fn expire_lease(&mut self, lease: i64) {
        self.kvs.retain(|_, v| v.1 != lease);
    }

    /// One run of the balancer for `node`: returns the confirmed owned partitions and the
    /// number of transactions whose condition held.
    fn balance(&mut self, node: &str, lease: i64, partitions: usize) -> (Vec<u16>, usize) {
        let workers_req = all_worker_records_request();
        let workers = self.range(&workers_req.key, &workers_req.range_end);
        let mut writes = 0;
        if let Some(txns) = balancer_txns(&workers, node.as_bytes(), lease, partitions) {
            for t in &txns {
                if self.txn(t) {
                    writes += 1;
                }
            }
        } else {
            return (vec![], 0);
        }
        let locks_req = all_sync_lock_records_request();
        let locks = self.range(&locks_req.key, &locks_req.range_end);
        (confirmed_owned_partitions(&locks, node.as_bytes()), writes)
    }

    fn owner_of(&self, partition: usize) -> Option<Vec<u8>> {
        self.kvs.get(&sync_lock_key_bytes(partition)).map(|e| e.0.clone())
    }
}

fn join(store: &mut Store, node: &str, lease: i64) {
    store.put(record_node_membership_request(node.as_bytes(), lease));
}

#[test]
fn sync_lock_records() {
    assert_eq!(
        vec![0, 2, 4],
        sync_records_to_claim_or_not(0, 5, 2).do_claim
    );
    assert_eq!(
        vec![1, 4, 7, 10],
        sync_records_to_claim_or_not(1, 12, 3).do_claim
    );
    assert_eq!(
        vec![0, 4, 8, 12, 16],
        sync_records_to_claim_or_not(0, 20, 4).do_claim
    );
}

#[test]
fn shard_complement_covers_every_other_partition() {
    let split = sync_records_to_claim_or_not(1, 7, 3);
    assert_eq!(split.do_claim, vec![1, 4]);
    assert_eq!(split.no_claim, vec![0, 2, 3, 5, 6]);
    let split = sync_records_to_claim_or_not(3, 4, 2);
    assert!(split.do_claim.is_empty());
    assert_eq!(split.no_claim, vec![0, 1, 2, 3]);
    let split = sync_records_to_claim_or_not(0, 0, 1);
    assert!(split.do_claim.is_empty() && split.no_claim.is_empty());
}

#[test]
fn range_end_increments_last_byte() {
    assert_eq!(calculate_prefix_range_end(b"/nodes/"), b"/nodes0".to_vec());
    assert_eq!(calculate_prefix_range_end(b"/sync_locks/"), b"/sync_locks0".to_vec());
    assert_eq!(calculate_prefix_range_end(b"a"), b"b".to_vec());
    assert_eq!(calculate_prefix_range_end(&[0, 254]), vec![0, 255]);
    let end = calculate_prefix_range_end(b"/nodes/");
    for key in [&b"/nodes/"[..], b"/nodes/a", b"/nodes/\xff\xff"] {
        assert!(key < end.as_slice());
    }
    assert!(&b"/nodes0"[..] >= end.as_slice());
}

#[test]
fn range_requests_cover_their_prefixes() {
    let count = cluster_members_count_request();
    assert_eq!(count.key, b"/nodes/".to_vec());
    assert_eq!(count.range_end, b"/nodes0".to_vec());
    assert!(count.count_only);
    let workers = all_worker_records_request();
    assert_eq!(workers.key, b"/nodes/".to_vec());
    assert!(!workers.count_only);
    let locks = all_sync_lock_records_request();
    assert_eq!(locks.key, b"/sync_locks/".to_vec());
    assert_eq!(locks.range_end, b"/sync_locks0".to_vec());
    assert!(!locks.count_only);
}

#[test]
fn membership_record_layout() {
    let put = record_node_membership_request(b"worker-1", 77);
    assert_eq!(put.key, b"/nodes/worker-1".to_vec());
    assert_eq!(put.value, b"replica".to_vec());
    assert_eq!(put.lease, 77);
    assert_eq!(replica_key_bytes(b""), b"/nodes/".to_vec());
}

#[test]
fn lock_keys_in_decimal() {
    assert_eq!(sync_lock_key_bytes(0), b"/sync_locks/0".to_vec());
    assert_eq!(sync_lock_key_bytes(7), b"/sync_locks/7".to_vec());
    assert_eq!(sync_lock_key_bytes(42), b"/sync_locks/42".to_vec());
    assert_eq!(sync_lock_key_bytes(100), b"/sync_locks/100".to_vec());
    assert_eq!(partition_of_lock_key(b"/sync_locks/42"), Some(42));
    assert_eq!(partition_of_lock_key(b"/sync_locks/65535"), Some(65535));
    assert_eq!(partition_of_lock_key(b"/sync_locks/65536"), None);
    assert_eq!(partition_of_lock_key(b"/sync_locks/"), None);
    assert_eq!(partition_of_lock_key(b"/sync_locks/4x"), None);
    assert_eq!(partition_of_lock_key(b"/nodes/42"), None);
    assert_eq!(partition_of_lock_key(b"/sync"), None);
}

#[test]
fn partition_numbers_parse() {
    assert_eq!(parse_partition_number(b""), None);
    assert_eq!(parse_partition_number(b"0"), Some(0));
    assert_eq!(parse_partition_number(b"007"), Some(7));
    assert_eq!(parse_partition_number(b"12345"), Some(12345));
    assert_eq!(parse_partition_number(b"99999999999"), None);
    assert_eq!(parse_partition_number(b"-1"), None);
    assert_eq!(parse_partition_number(b"1 "), None);
}

#[test]
fn claim_and_release_transactions() {
    let claim = sync_lock_claim_txn(5, b"a", 3);
    assert_eq!(claim.key, b"/sync_locks/3".to_vec());
    assert_eq!(claim.compare, Compare::VersionIsZero);
    assert_eq!(claim.on_success, RequestOp::Put { value: b"a".to_vec(), lease: 5 });
    let release = sync_lock_release_txn(b"a", 12);
    assert_eq!(release.key, b"/sync_locks/12".to_vec());
    assert_eq!(release.compare, Compare::ValueEquals(b"a".to_vec()));
    assert_eq!(release.on_success, RequestOp::Delete);
}

#[test]
fn reconciliation_releases_then_claims() {
    let txns = sync_lock_reconciliation_txns(9, b"b", 4, 2, 1);
    let keys: Vec<Vec<u8>> = txns.iter().map(|t| t.key.clone()).collect();
    assert_eq!(
        keys,
        vec![
            b"/sync_locks/0".to_vec(),
            b"/sync_locks/2".to_vec(),
            b"/sync_locks/1".to_vec(),
            b"/sync_locks/3".to_vec()
        ]
    );
    assert_eq!(txns[0].on_success, RequestOp::Delete);
    assert_eq!(txns[1].on_success, RequestOp::Delete);
    assert_eq!(txns[2].on_success, RequestOp::Put { value: b"b".to_vec(), lease: 9 });
    assert_eq!(txns[3].compare, Compare::VersionIsZero);
}

#[test]
fn worker_index_follows_store_order() {
    let workers = vec![
        KeyValue { key: b"/nodes/a".to_vec(), value: b"replica".to_vec() },
        KeyValue { key: b"/nodes/b".to_vec(), value: b"replica".to_vec() },
        KeyValue { key: b"/nodes/c".to_vec(), value: b"replica".to_vec() },
    ];
    assert_eq!(worker_index(&workers, b"a"), Some(0));
    assert_eq!(worker_index(&workers, b"c"), Some(2));
    assert_eq!(worker_index(&workers, b"d"), None);
    assert_eq!(worker_index(&workers, b""), None);
}

#[test]
fn node_missing_from_membership_gets_nothing() {
    let workers = vec![KeyValue { key: b"/nodes/a".to_vec(), value: b"replica".to_vec() }];
    assert!(balancer_txns(&workers, b"b", 1, 4).is_none());
    let mut store = Store::default();
    join(&mut store, "a", 1);
    assert_eq!(store.balance("b", 2, 4), (vec![], 0));
    assert!(store.owner_of(0).is_none());
}

#[test]
fn confirmed_partitions_only_those_held() {
    let locks = vec![
        KeyValue { key: b"/sync_locks/0".to_vec(), value: b"a".to_vec() },
        KeyValue { key: b"/sync_locks/1".to_vec(), value: b"b".to_vec() },
        KeyValue { key: b"/sync_locks/10".to_vec(), value: b"a".to_vec() },
        KeyValue { key: b"/sync_locks/x".to_vec(), value: b"a".to_vec() },
        KeyValue { key: b"/sync_locks/2".to_vec(), value: b"ab".to_vec() },
    ];
    assert_eq!(confirmed_owned_partitions(&locks, b"a"), vec![0, 10]);
    assert_eq!(confirmed_owned_partitions(&locks, b"b"), vec![1]);
    assert!(confirmed_owned_partitions(&locks, b"c").is_empty());
    assert!(confirmed_owned_partitions(&vec![], b"a").is_empty());
}

#[test]
fn single_node_boot() {
    let mut store = Store::default();
    join(&mut store, "a", 1);
    let (owned, _) = store.balance("a", 1, 4);
    assert!(store.kvs.contains_key(&b"/nodes/a".to_vec()));
    for p in 0..4 {
        assert_eq!(store.owner_of(p), Some(b"a".to_vec()));
    }
    assert_eq!(owned, vec![0, 1, 2, 3]);
}

#[test]
fn two_nodes_deterministic_split() {
    let mut store = Store::default();
    join(&mut store, "a", 1);
    store.balance("a", 1, 4);
    join(&mut store, "b", 2);
    for _ in 0..2 {
        store.balance("b", 2, 4);
        store.balance("a", 1, 4);
    }
    assert_eq!(store.balance("a", 1, 4).0, vec![0, 2]);
    assert_eq!(store.balance("b", 2, 4).0, vec![1, 3]);
}

#[test]
fn node_failure_rebalance() {
    let mut store = Store::default();
    join(&mut store, "a", 1);
    join(&mut store, "b", 2);
    for _ in 0..2 {
        store.balance("a", 1, 4);
        store.balance("b", 2, 4);
    }
    store.expire_lease(1);
    assert!(!store.kvs.contains_key(&b"/nodes/a".to_vec()));
    let (owned, _) = store.balance("b", 2, 4);
    assert_eq!(owned, vec![0, 1, 2, 3]);
}

#[test]
fn claim_race_has_one_winner_per_lock() {
    let mut store = Store::default();
    // Each racer sees only its own record and so claims every partition.
    let only_x = vec![KeyValue { key: b"/nodes/x".to_vec(), value: b"replica".to_vec() }];
    let only_y = vec![KeyValue { key: b"/nodes/y".to_vec(), value: b"replica".to_vec() }];
    let tx = balancer_txns(&only_x, b"x", 1, 4).unwrap();
    let ty = balancer_txns(&only_y, b"y", 2, 4).unwrap();
    let mut won = vec![];
    for (i, (a, b)) in tx.iter().zip(ty.iter()).enumerate() {
        let (first, second) = if i % 2 == 0 { (a, b) } else { (b, a) };
        let first_won = store.txn(first);
        let second_won = store.txn(second);
        assert!(first_won && !second_won);
        won.push(store.owner_of(i).unwrap());
    }
    assert_eq!(won, vec![b"x".to_vec(), b"y".to_vec(), b"x".to_vec(), b"y".to_vec()]);
}

#[test]
fn reconciliation_twice_writes_nothing_the_second_time() {
    let mut store = Store::default();
    join(&mut store, "a", 1);
    join(&mut store, "b", 2);
    store.kvs.insert(b"/sync_locks/0".to_vec(), (b"b".to_vec(), 2));
    let (_, first_writes) = store.balance("a", 1, 6);
    assert!(first_writes > 0);
    let before = store.kvs.clone();
    let (_, second_writes) = store.balance("a", 1, 6);
    assert_eq!(second_writes, 0);
    assert_eq!(store.kvs, before);
}

#[test]
fn stable_fleet_covers_every_partition_after_two_rounds() {
    let mut store = Store::default();
    let nodes = [("a", 1), ("b", 2), ("c", 3)];
    for (n, l) in nodes {
        join(&mut store, n, l);
    }
    // Locks left over from an earlier membership, all held by current members.
    store.kvs.insert(sync_lock_key_bytes(0), (b"c".to_vec(), 3));
    store.kvs.insert(sync_lock_key_bytes(4), (b"a".to_vec(), 1));
    store.kvs.insert(sync_lock_key_bytes(8), (b"b".to_vec(), 2));
    for order in [[2, 0, 1], [0, 2, 1]] {
        for i in order {
            let (n, l) = nodes[i];
            store.balance(n, l, 10);
        }
    }
    let mut all = vec![];
    for (i, (n, l)) in nodes.iter().enumerate() {
        let (owned, _) = store.balance(n, *l, 10);
        assert!(owned.iter().all(|p| *p as usize % 3 == i));
        all.extend(owned);
    }
    all.sort();
    assert_eq!(all, (0..10).collect::<Vec<u16>>());
}
