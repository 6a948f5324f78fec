use money_pools::currency::Currency;
use money_pools::money_pool::MoneyPool;
use money_pools::storage::{InmemoryStorage, SharedInmemoryStorage, Storage, StorageError};
use money_pools::timestamp::Timestamp;
use money_pools::transaction::{Transaction, TransactionFilter};

fn tx_at(secs: i64, pool: &str, description: &str) -> Transaction {
    let mut t = Transaction::new_regular(1.5f32.to_bits(), pool.to_owned(), description.to_owned());
    t.timestamp = Timestamp::new(secs, 0);
    t
}

fn pool(id: &str, name: &str) -> MoneyPool {
    MoneyPool::new(id.to_owned(), name.to_owned(), Currency::from_code("EUR").unwrap(), 10.0f32.to_bits())
}

fn secs_of(ts: &[Transaction]) -> Vec<i64> {
    ts.iter().map(|t| t.timestamp.secs).collect()
}

#[test]
fn test_write_read() {
    let mut storage = InmemoryStorage::new();
    let user_id = "onetwothree".to_owned();
    let pool_id = "somepool".to_owned();

    for idx in 0..10 {
        let res = storage.add_transaction(
            &user_id,
            Transaction::new_regular(100.0f32.to_bits(), pool_id.clone(), format!("transaciton {}", idx)),
        );
        assert!(res.is_ok())
    }

    let load_res = storage.load_transactions(&user_id, None, 0, 3);
    assert!(load_res.is_ok());
    let loaded = load_res.unwrap();
    assert_eq!(loaded.len(), 3);
}

#[test]
fn unseen_user_reads_empty_results() {
    let mut storage = InmemoryStorage::new();
    assert!(storage.load_pools("nobody").unwrap().is_empty());
    assert!(storage.load_pool("nobody", "p").unwrap().is_none());
    assert!(storage.load_transactions("nobody", None, 0, 10).unwrap().is_empty());
    storage.add_pool("alice", pool("p", "wallet")).unwrap();
    storage.add_transaction("alice", tx_at(1, "p", "one")).unwrap();
    assert!(storage.load_pools("bob").unwrap().is_empty());
    assert!(storage.load_pool("bob", "p").unwrap().is_none());
    assert!(storage.load_transactions("bob", None, 0, 10).unwrap().is_empty());
}

#[test]
fn pools_come_back_in_insertion_order() {
    let mut storage = InmemoryStorage::new();
    storage.add_pool("u", pool("b", "second letter")).unwrap();
    storage.add_pool("u", pool("a", "first letter")).unwrap();
    storage.add_pool("v", pool("c", "other user")).unwrap();
    storage.add_pool("u", pool("c", "third")).unwrap();
    let ids: Vec<String> = storage.load_pools("u").unwrap().into_iter().map(|p| p.id).collect();
    assert_eq!(ids, vec!["b", "a", "c"]);
    let loaded = storage.load_pools("v").unwrap();
    assert_eq!(loaded.len(), 1);
    assert_eq!(loaded[0].display_name, "other user");
    assert_eq!(loaded[0].currency.code(), "EUR");
    assert_eq!(f32::from_bits(loaded[0].balance_bits), 10.0);
}

#[test]
fn load_pool_returns_first_match() {
    let mut storage = InmemoryStorage::new();
    storage.add_pool("u", pool("x", "first")).unwrap();
    storage.add_pool("u", pool("y", "other")).unwrap();
    storage.add_pool("u", pool("x", "duplicate")).unwrap();
    let found = storage.load_pool("u", "x").unwrap().unwrap();
    assert_eq!(found.display_name, "first");
    assert!(storage.load_pool("u", "z").unwrap().is_none());
}

#[test]
fn transactions_come_back_newest_first_whatever_the_insertion_order() {
    let mut storage = InmemoryStorage::new();
    for secs in [5, 1, 4, 2, 3] {
        storage.add_transaction("u", tx_at(secs, "A", "t")).unwrap();
    }
    let all = storage.load_transactions("u", None, 0, 5).unwrap();
    assert_eq!(secs_of(&all), vec![5, 4, 3, 2, 1]);
}

#[test]
fn equal_timestamps_keep_insertion_order() {
    let mut storage = InmemoryStorage::new();
    storage.add_transaction("u", tx_at(2, "A", "first")).unwrap();
    storage.add_transaction("u", tx_at(1, "A", "early")).unwrap();
    storage.add_transaction("u", tx_at(2, "A", "second")).unwrap();
    let all = storage.load_transactions("u", None, 0, 10).unwrap();
    let names: Vec<String> = all.into_iter().map(|t| t.description).collect();
    assert_eq!(names, vec!["second", "first", "early"]);
}

fn three_in_two_pools() -> InmemoryStorage {
    let mut storage = InmemoryStorage::new();
    storage.add_transaction("u", tx_at(1, "A", "one")).unwrap();
    storage.add_transaction("u", tx_at(2, "B", "two")).unwrap();
    storage.add_transaction("u", tx_at(3, "A", "three")).unwrap();
    storage
}

#[test]
fn filter_by_min_timestamp_excludes_earlier() {
    let storage = three_in_two_pools();
    let mut f = TransactionFilter::default();
    f.min_timestamp = Some(Timestamp::new(2, 0));
    let got = storage.load_transactions("u", Some(f), 0, 10).unwrap();
    assert_eq!(secs_of(&got), vec![3, 2]);
}

#[test]
fn filter_by_pool_excludes_other_pools() {
    let storage = three_in_two_pools();
    let mut f = TransactionFilter::default();
    f.pool_ids = Some(vec!["A".to_owned()]);
    let got = storage.load_transactions("u", Some(f), 0, 10).unwrap();
    assert_eq!(secs_of(&got), vec![3, 1]);
}

#[test]
fn filter_clauses_combine_by_and() {
    let storage = three_in_two_pools();
    let mut f = TransactionFilter::default();
    f.min_timestamp = Some(Timestamp::new(2, 0));
    f.pool_ids = Some(vec!["A".to_owned()]);
    let got = storage.load_transactions("u", Some(f), 0, 10).unwrap();
    assert_eq!(secs_of(&got), vec![3]);
}

#[test]
fn filter_max_timestamp_is_inclusive() {
    let storage = three_in_two_pools();
    let mut f = TransactionFilter::default();
    f.max_timestamp = Some(Timestamp::new(2, 0));
    let got = storage.load_transactions("u", Some(f), 0, 10).unwrap();
    assert_eq!(secs_of(&got), vec![2, 1]);
    let mut none = TransactionFilter::default();
    none.pool_ids = Some(vec![]);
    assert!(storage.load_transactions("u", Some(none), 0, 10).unwrap().is_empty());
    let unconstrained = storage.load_transactions("u", Some(TransactionFilter::default()), 0, 10).unwrap();
    assert_eq!(secs_of(&unconstrained), vec![3, 2, 1]);
}

#[test]
fn pagination_returns_second_newest() {
    let storage = three_in_two_pools();
    let got = storage.load_transactions("u", None, 1, 1).unwrap();
    assert_eq!(secs_of(&got), vec![2]);
    assert!(storage.load_transactions("u", None, 3, 5).unwrap().is_empty());
    assert!(storage.load_transactions("u", None, 0, 0).unwrap().is_empty());
    assert_eq!(secs_of(&storage.load_transactions("u", None, 2, 5).unwrap()), vec![1]);
    assert_eq!(secs_of(&storage.load_transactions("u", None, 1, usize::MAX).unwrap()), vec![2, 1]);
    assert!(storage.load_transactions("u", None, usize::MAX, usize::MAX).unwrap().is_empty());
}

#[test]
fn matches_checks_each_clause() {
    let t = tx_at(5, "A", "t");
    let mut f = TransactionFilter::default();
    assert!(f.matches(&t));
    f.min_timestamp = Some(Timestamp::new(5, 1));
    assert!(!f.matches(&t));
    f.min_timestamp = Some(Timestamp::new(5, 0));
    assert!(f.matches(&t));
    f.max_timestamp = Some(Timestamp::new(4, 999_999_999));
    assert!(!f.matches(&t));
    f.max_timestamp = None;
    f.pool_ids = Some(vec!["B".to_owned(), "A".to_owned()]);
    assert!(f.matches(&t));
    f.pool_ids = Some(vec!["B".to_owned()]);
    assert!(!f.matches(&t));
}

#[test]
fn new_regular_fills_in_the_rest() {
    let t = Transaction::new_regular((-2.5f32).to_bits(), "pool".to_owned(), "lunch".to_owned());
    assert_eq!(t.id.len(), 36);
    assert_eq!(t.id.chars().filter(|c| *c == '-').count(), 4);
    assert_eq!(f32::from_bits(t.amount_bits), -2.5);
    assert_eq!(t.pool_id, "pool");
    assert_eq!(t.description, "lunch");
    assert!(t.conversion_paired_transaction_id.is_none());
    assert!(!t.is_diffuse);
    let u = Transaction::new_regular(0, "pool".to_owned(), "x".to_owned());
    assert_ne!(t.id, u.id);
    assert!(t.timestamp.secs > 1_600_000_000);
    assert!(!u.timestamp.is_before(&t.timestamp));
}

#[test]
fn trait_and_inherent_methods_agree() {
    fn fill<S: Storage>(s: &mut S) {
        s.add_pool("u", pool("p", "wallet")).unwrap();
        s.add_transaction("u", tx_at(7, "p", "x")).unwrap();
    }
    let mut storage = InmemoryStorage::new();
    fill(&mut storage);
    assert_eq!(Storage::load_pools(&storage, "u").unwrap().len(), 1);
    assert!(Storage::load_pool(&storage, "u", "p").unwrap().is_some());
    assert_eq!(secs_of(&Storage::load_transactions(&storage, "u", None, 0, 1).unwrap()), vec![7]);
}

#[test]
fn storage_error_message() {
    let e = StorageError { reason: "conflict, user id not found".to_owned() };
    assert_eq!(e.message(), "Storage error, reason: conflict, user id not found");
}

#[test]
fn concurrent_adds_are_all_kept_in_order() {
    let shared = SharedInmemoryStorage::new();
    let rt = tokio::runtime::Builder::new_multi_thread().worker_threads(4).build().unwrap();
    rt.block_on(async {
        let mut handles = Vec::new();
        for i in 0..50i64 {
            let s = shared.clone();
            handles.push(tokio::spawn(async move {
                let secs = (i * 37) % 50;
                s.inner.lock().await.add_transaction("u", tx_at(secs, "A", "c")).unwrap();
            }));
        }
        for h in handles {
            h.await.unwrap();
        }
        let all = shared.inner.lock().await.load_transactions("u", None, 0, 100).unwrap();
        assert_eq!(all.len(), 50);
        let secs = secs_of(&all);
        let expected: Vec<i64> = (0..50).rev().collect();
        assert_eq!(secs, expected);
    });
}
