use capture_store::store::{CaptureStore, GetResult, StoreError, CAPACITY};
use std::sync::{Arc, Mutex};

#[test]
fn ids_are_sequential() {
    let mut s = CaptureStore::new();
    for k in 1..=25u64 {
        let id = s.insert(vec![k as u8]).unwrap();
        assert_eq!(id, k);
    }
}

#[test]
fn retention_keeps_most_recent_ten() {
    let mut s = CaptureStore::new();
    for k in 1..=15u64 {
        s.insert(vec![k as u8]).unwrap();
    }
    let entries = s.list_all().unwrap();
    assert_eq!(entries.len(), CAPACITY);
    let ids: Vec<u64> = entries.iter().map(|e| e.0).collect();
    let expect: Vec<u64> = (6..=15).collect();
    assert_eq!(ids, expect);
}

#[test]
fn get_returns_exact_payload_bytes() {
    let mut s = CaptureStore::new();
    let payload = vec![0u8, 255, 17, 42, 0];
    let id = s.insert(payload.clone()).unwrap();
    match s.get(id) {
        GetResult::Found(p) => assert_eq!(p, payload),
        _ => panic!("retained id must be found"),
    }
}

#[test]
fn get_misses_zero_unissued_and_evicted_ids() {
    let mut s = CaptureStore::new();
    for k in 1..=15u64 {
        s.insert(vec![k as u8]).unwrap();
    }
    assert_eq!(s.get(0), GetResult::NotFound);
    for id in 1..=5u64 {
        assert_eq!(s.get(id), GetResult::NotFound);
    }
    for id in 6..=15u64 {
        assert_eq!(s.get(id), GetResult::Found(vec![id as u8]));
    }
    assert_eq!(s.get(16), GetResult::NotFound);
}

#[test]
fn get_on_empty_store_misses() {
    let s = CaptureStore::new();
    assert_eq!(s.get(0), GetResult::NotFound);
    assert_eq!(s.get(1), GetResult::NotFound);
}

#[test]
fn list_all_reports_ids_and_lengths_in_order() {
    let mut s = CaptureStore::new();
    assert_eq!(s.list_all().unwrap(), vec![]);
    s.insert(vec![1, 2, 3]).unwrap();
    s.insert(vec![4, 5, 6, 7, 8, 9, 10]).unwrap();
    s.insert(vec![11, 12]).unwrap();
    assert_eq!(s.list_all().unwrap(), vec![(1, 3), (2, 7), (3, 2)]);
}

#[test]
fn twelve_inserts_retain_the_last_ten() {
    let mut s = CaptureStore::new();
    let payloads: Vec<Vec<u8>> = (1..=12u8).map(|k| vec![k, k + 100]).collect();
    for (k, p) in payloads.iter().enumerate() {
        let id = s.insert(p.clone()).unwrap();
        assert_eq!(id, k as u64 + 1);
    }
    assert_eq!(s.get(1), GetResult::NotFound);
    assert_eq!(s.get(2), GetResult::NotFound);
    for id in 3..=12u64 {
        assert_eq!(s.get(id), GetResult::Found(payloads[id as usize - 1].clone()));
    }
    let entries = s.list_all().unwrap();
    assert_eq!(entries.len(), 10);
    assert_eq!(entries[0].0, 3);
    assert_eq!(entries[9].0, 12);
}

#[test]
fn hundred_interleaved_inserts_yield_ids_one_to_hundred() {
    // Ten callers' inserts interleaved round-robin, ten inserts each; under
    // the store's exclusive lock every interleaving is some such sequence.
    let mut s = CaptureStore::new();
    let mut ids: Vec<u64> = Vec::new();
    for round in 0..10u8 {
        for caller in 0..10u8 {
            ids.push(s.insert(vec![caller, round]).unwrap());
        }
    }
    let expect: Vec<u64> = (1..=100).collect();
    assert_eq!(ids, expect);
}

#[test]
fn hundred_concurrent_inserts_yield_ids_one_to_hundred() {
    // Ten callers on ten OS threads (actix arbiters), ten inserts each,
    // against one lock-guarded store.
    let _system = actix_rt::System::new();
    let store = Arc::new(Mutex::new(CaptureStore::new()));
    let ids = Arc::new(Mutex::new(Vec::<u64>::new()));
    let mut arbiters = Vec::new();
    for caller in 0..10u8 {
        let store = Arc::clone(&store);
        let ids = Arc::clone(&ids);
        let arbiter = actix_rt::Arbiter::new();
        arbiter.spawn_fn(move || {
            for k in 0..10u8 {
                let id = store.lock().unwrap().insert(vec![caller, k]).unwrap();
                ids.lock().unwrap().push(id);
            }
        });
        arbiters.push(arbiter);
    }
    for arbiter in arbiters {
        arbiter.stop();
        arbiter.join().unwrap();
    }
    let mut got = ids.lock().unwrap().clone();
    got.sort();
    let expect: Vec<u64> = (1..=100).collect();
    assert_eq!(got, expect);
    let entries = store.lock().unwrap().list_all().unwrap();
    let retained: Vec<u64> = entries.iter().map(|e| e.0).collect();
    let last_window: Vec<u64> = (91..=100).collect();
    assert_eq!(retained, last_window);
}

#[test]
fn corrupted_store_fails_fast_and_keeps_state() {
    let mut s = CaptureStore::new();
    s.insert(vec![9]).unwrap();
    s.mark_corrupted();
    assert_eq!(s.insert(vec![10]), Err(StoreError::Corrupted));
    assert_eq!(s.get(1), GetResult::Corrupted);
    assert_eq!(s.list_all(), Err(StoreError::Corrupted));
}

#[test]
fn fresh_store_is_not_at_the_id_limit() {
    let mut s = CaptureStore::new();
    assert!(!s.at_id_limit());
    s.insert(vec![1]).unwrap();
    assert!(!s.at_id_limit());
}
