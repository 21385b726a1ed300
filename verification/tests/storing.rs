use poml::store::Store;

#[test]
fn store_finds_what_was_put_in() {
    let mut store: Store<&str> = Store::new();
    let a = store.push("a");
    let b = store.push("b");
    assert_eq!(store.get(&a), Some(&"a"));
    assert_eq!(store.get(&b), Some(&"b"));
    let again = a;
    assert_eq!(store.get(&again.clone()), Some(&"a"));
    assert_eq!(store.iter().to_vec(), vec!["a", "b"]);
}

#[test]
fn store_rejects_stale_handles() {
    let mut store: Store<u32> = Store::default();
    assert_eq!(store.generation(), 0);
    let a = store.push(1);
    store.clear();
    assert_eq!(store.generation(), 1);
    assert_eq!(store.get(&a), None);
    assert!(store.iter().is_empty());
    let b = store.push(2);
    // the old handle names the same slot, and still finds nothing
    assert_eq!(store.get(&a), None);
    assert_eq!(store.get(&b), Some(&2));
}
