use interner::pool::{GlobalPool, SharedPool};
use interner::value::PoolPath;
use interner::{BufferPool, PathPool, StringPool};

fn string_pool() -> StringPool {
    SharedPool::with_hasher(fnv::FnvBuildHasher::default())
}

#[test]
fn intern_scenario_abc() {
    let mut pool = string_pool();
    let h1 = pool.get_from_owned(String::from("abc"));
    assert_eq!(pool.count(&h1), 1);
    assert_eq!(pool.len(), 1);

    let h2 = pool.get(&String::from("abc"));
    assert_eq!(pool.count(&h1), 2);
    assert!(pool.handle_eq_same(&h1, &h2));
    assert_eq!(h1.slot_id(), h2.slot_id());
    let first_id = h1.slot_id();

    assert!(!pool.release(h1));
    assert_eq!(pool.count(&h2), 1);
    assert!(pool.release(h2));
    assert_eq!(pool.len(), 0);

    let h3 = pool.get(&String::from("abc"));
    assert_eq!(pool.value(&h3).as_str(), "abc");
    assert_ne!(h3.slot_id(), first_id);
}

#[test]
fn no_duplication_while_held() {
    let mut pool = string_pool();
    let a = pool.get(&String::from("shared"));
    let b = pool.get_from_owned(String::from("shared"));
    let c = pool.get(&String::from("shared"));
    assert!(pool.handle_eq_same(&a, &b));
    assert!(pool.handle_eq_same(&b, &c));
    assert_eq!(pool.len(), 1);
    assert_eq!(pool.count(&a), 3);
    pool.release(a);
    pool.release(b);
    pool.release(c);
    assert_eq!(pool.len(), 0);
}

#[test]
fn reclaim_gives_fresh_identity() {
    let mut pool = string_pool();
    let a = pool.get(&String::from("gone"));
    let old_id = a.slot_id();
    assert!(pool.release(a));
    let b = pool.get(&String::from("gone"));
    assert_ne!(b.slot_id(), old_id);
    assert_eq!(pool.value(&b).as_str(), "gone");
}

#[test]
fn clone_handle_adjusts_count() {
    let mut pool = string_pool();
    let a = pool.get(&String::from("counted"));
    let b = pool.clone_handle(&a);
    assert_eq!(a.slot_id(), b.slot_id());
    assert_eq!(pool.count(&a), 2);
    assert!(!pool.release(b));
    assert_eq!(pool.count(&a), 1);
    assert!(pool.release(a));
    assert_eq!(pool.len(), 0);
}

#[test]
fn hit_adds_no_slot_miss_adds_one() {
    let mut pool = string_pool();
    let a = pool.get(&String::from("one"));
    assert_eq!(pool.len(), 1);
    let b = pool.get(&String::from("one"));
    assert_eq!(pool.len(), 1);
    let c = pool.get(&String::from("two"));
    assert_eq!(pool.len(), 2);
    pool.release(a);
    pool.release(b);
    pool.release(c);
}

#[test]
fn cross_pool_value_fallback() {
    let mut t1 = string_pool();
    let mut t2 = string_pool();
    let a = t1.get(&String::from("x"));
    let b = t2.get(&String::from("x"));
    let c = t2.get(&String::from("y"));
    assert!(t1.handle_eq_cross(&a, &t2, &b));
    assert!(!t1.handle_eq_cross(&a, &t2, &c));
    t1.release(a);
    t2.release(b);
    t2.release(c);
}

#[test]
fn pool_kind_mismatch_never_equal() {
    let shared = string_pool();
    let global: GlobalPool<String> = GlobalPool::new(fnv::FnvBuildHasher::default());
    assert!(shared != global);
    assert!(global != shared);
}

#[test]
fn global_pool_values_compare_by_fallback() {
    let mut global: GlobalPool<String> = GlobalPool::new(fnv::FnvBuildHasher::default());
    let mut shared = string_pool();
    let g = global.get(&String::from("both"));
    let s = shared.get(&String::from("both"));
    assert!(global.handle_eq_cross(&g, &shared, &s));
    assert_eq!(global.value(&g).as_str(), "both");
    assert!(global.release(g));
    shared.release(s);
}

#[test]
fn buffer_pool_dedup() {
    let mut pool: BufferPool = SharedPool::with_hasher(fnv::FnvBuildHasher::default());
    let a = pool.get(&vec![1u8, 2, 3]);
    let b = pool.get_from_owned(vec![1u8, 2, 3]);
    assert!(pool.handle_eq_same(&a, &b));
    let c = pool.get(&vec![1u8, 2]);
    assert!(!pool.handle_eq_same(&a, &c));
    assert_eq!(pool.len(), 2);
    assert_eq!(pool.value(&c), &vec![1u8, 2]);
    pool.release(a);
    pool.release(b);
    pool.release(c);
    assert_eq!(pool.len(), 0);
}

#[test]
fn empty_buffer_interns() {
    let mut pool: BufferPool = SharedPool::with_hasher(fnv::FnvBuildHasher::default());
    let a = pool.get(&Vec::new());
    let b = pool.get(&Vec::new());
    assert!(pool.handle_eq_same(&a, &b));
    assert_eq!(pool.value(&a).len(), 0);
    pool.release(a);
    pool.release(b);
}

#[test]
fn path_pool_dedup() {
    let mut pool: PathPool = SharedPool::with_hasher(fnv::FnvBuildHasher::default());
    let a = pool.get(&PoolPath::new(String::from("/tmp/a")));
    let b = pool.get_from_owned(PoolPath::new(String::from("/tmp/a")));
    let c = pool.get(&PoolPath::new(String::from("/tmp/b")));
    assert!(pool.handle_eq_same(&a, &b));
    assert!(!pool.handle_eq_same(&a, &c));
    assert_eq!(pool.value(&a).text().as_str(), "/tmp/a");
    pool.release(a);
    pool.release(b);
    pool.release(c);
}

#[test]
fn default_pool_is_empty() {
    let mut pool: StringPool = Default::default();
    assert_eq!(pool.len(), 0);
    let h = pool.get(&String::from("d"));
    assert!(pool.has_slot(&h));
    assert_eq!(pool.len(), 1);
    assert!(pool.release(h));
}

#[test]
fn with_capacity_starts_empty() {
    let mut pool: StringPool = SharedPool::with_capacity_and_hasher(16, fnv::FnvBuildHasher::default());
    assert_eq!(pool.len(), 0);
    assert!(pool.can_admit(&String::from("anything")));
    let h = pool.get(&String::from("anything"));
    assert!(pool.can_admit(&String::from("anything")));
    pool.release(h);
}

#[test]
fn equal_values_hash_alike_across_pools() {
    let mut t1 = string_pool();
    let mut t2 = string_pool();
    let a = t1.get(&String::from("h"));
    let b = t2.get(&String::from("h"));
    assert_eq!(t1.handle_hash(&a), t2.handle_hash(&b));
    let c = t2.get(&String::from("other"));
    assert_ne!(t2.handle_hash(&b), t2.handle_hash(&c));
    t1.release(a);
    t2.release(b);
    t2.release(c);
}
