use shortenurl::store::AliasStore;
use shortenurl::StoreError;

#[test]
fn get_is_idempotent() {
    let mut store = AliasStore::new();
    store
        .create_with_alias(String::from("abc"), String::from("http://example.com"))
        .unwrap();
    let key = String::from("abc");
    let first = store.get(&key).unwrap();
    let second = store.get(&key).unwrap();
    assert_eq!(first.id, second.id);
    assert_eq!(first.alias, second.alias);
    assert_eq!(first.url, second.url);
}

#[test]
fn create_then_get_returns_the_url() {
    let mut store = AliasStore::new();
    let rec = store.create(String::from("http://example.com")).unwrap();
    let found = store.get(&rec.alias).unwrap();
    assert_eq!(found.url, "http://example.com");
    assert_eq!(found.alias, rec.alias);
    assert_eq!(found.id, rec.id);
}

#[test]
fn delete_then_get_is_not_found() {
    let mut store = AliasStore::new();
    store
        .create_with_alias(String::from("abc"), String::from("http://example.com"))
        .unwrap();
    let key = String::from("abc");
    let removed = store.delete(&key).unwrap();
    assert_eq!(removed.alias, "abc");
    assert_eq!(removed.url, "http://example.com");
    assert_eq!(store.get(&key).unwrap_err(), StoreError::NotFoundError);
}

#[test]
fn get_missing_alias_is_not_found() {
    let store = AliasStore::new();
    let key = String::from("nope");
    assert_eq!(store.get(&key).unwrap_err(), StoreError::NotFoundError);
}

#[test]
fn delete_missing_alias_is_not_found() {
    let mut store = AliasStore::new();
    let key = String::from("nope");
    assert_eq!(store.delete(&key).unwrap_err(), StoreError::NotFoundError);
}

#[test]
fn delete_all_on_empty_store_is_not_found() {
    let mut store = AliasStore::new();
    assert_eq!(store.delete_all().unwrap_err(), StoreError::NotFoundError);
}

#[test]
fn delete_all_empties_a_populated_store() {
    let mut store = AliasStore::new();
    store
        .create_with_alias(String::from("a1"), String::from("http://one.example"))
        .unwrap();
    store
        .create_with_alias(String::from("a2"), String::from("http://two.example"))
        .unwrap();
    store
        .create_with_alias(String::from("a3"), String::from("http://three.example"))
        .unwrap();
    let first = store.delete_all().unwrap();
    assert_eq!(first.alias, "a1");
    assert_eq!(store.list().len(), 0);
}

#[test]
fn same_millisecond_aliases_collide() {
    // Two creations in the same millisecond mint the same alias; the store
    // surfaces the collision as a constraint violation instead of passing
    // it off as a second record.
    let millis: u128 = 1_700_000_000_000;
    let alias_one = shortenurl::generator::alias_of_millis(millis);
    let alias_two = shortenurl::generator::alias_of_millis(millis);
    assert_eq!(alias_one, alias_two);
    let mut store = AliasStore::new();
    store
        .create_with_alias(alias_one, String::from("http://one.example"))
        .unwrap();
    let err = store
        .create_with_alias(alias_two, String::from("http://two.example"))
        .unwrap_err();
    assert_eq!(err, StoreError::ConstraintError);
}

#[test]
fn ids_are_unique_and_immutable_across_operations() {
    let mut store = AliasStore::new();
    let a = store
        .create_with_alias(String::from("a"), String::from("http://a.example"))
        .unwrap();
    let b = store
        .create_with_alias(String::from("b"), String::from("http://b.example"))
        .unwrap();
    assert_ne!(a.id, b.id);
    store.delete(&String::from("a")).unwrap();
    let c = store
        .create_with_alias(String::from("c"), String::from("http://c.example"))
        .unwrap();
    assert_ne!(b.id, c.id);
    let b_again = store.get(&String::from("b")).unwrap();
    assert_eq!(b_again.id, b.id);
}

#[test]
fn list_shows_records_in_store_order() {
    let mut store = AliasStore::new();
    store
        .create_with_alias(String::from("x"), String::from("http://x.example"))
        .unwrap();
    store
        .create_with_alias(String::from("y"), String::from("http://y.example"))
        .unwrap();
    let records = store.list();
    assert_eq!(records.len(), 2);
    assert_eq!(records[0].alias, "x");
    assert_eq!(records[1].alias, "y");
}
