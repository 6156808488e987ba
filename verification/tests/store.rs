use cryptenv::cipher::seal;
use cryptenv::cipher::DecryptError;
use cryptenv::cipher::DecryptKind;
use cryptenv::cipher::EncryptionKey;
use cryptenv::store::normalize_name;
use cryptenv::store::AddDecision;
use cryptenv::store::Store;
use cryptenv::store::StoreError;
use cryptenv::store::StoreFailure;
use cryptenv::table::Table;

fn key(fill: u8) -> EncryptionKey {
    EncryptionKey::from_bytes(&[fill; 32]).expect("32 bytes")
}

fn store_of(names: &[&str]) -> Store {
    let mut store = Store::new();
    for name in names {
        store.add(name.to_string(), &format!("value of {}", name), &mut key(1));
    }
    store
}

fn listing(store: &Store) -> Vec<String> {
    store.iter().iter().map(|(name, _)| name.to_string()).collect()
}

#[test]
fn a_new_store_is_empty() {
    let store = Store::new();
    assert!(store.keys().is_empty());
    assert!(store.iter().is_empty());
    assert!(store.get("ANY").is_none());
}

#[test]
fn added_secret_opens_to_its_value_and_the_key_is_wiped() {
    let mut store = Store::new();
    let mut adding = key(3);
    store.add("DB".to_string(), "postgres://", &mut adding);
    assert_eq!(adding.as_bytes(), &[0u8; 32]);
    let mut opening = key(3);
    let opened = store.decrypt_or_fail("DB", &mut opening).expect("opens");
    assert_eq!(opened.value(), "postgres://");
    assert_eq!(opening.as_bytes(), &[0u8; 32]);
}

#[test]
fn adding_again_replaces_the_value_in_place() {
    let mut store = store_of(&["A", "B"]);
    store.add("A".to_string(), "new", &mut key(1));
    assert_eq!(store.keys(), vec!["A".to_string(), "B".to_string()]);
    assert_eq!(store.open_secret("A", &key(1)).expect("opens").value(), "new");
    assert_eq!(store.open_secret("B", &key(1)).expect("opens").value(), "value of B");
}

#[test]
fn lookup_is_exact_and_case_sensitive() {
    let store = store_of(&["TOKEN"]);
    assert!(store.get("TOKEN").is_some());
    assert!(store.get("token").is_none());
    assert!(store.get("TOKEN ").is_none());
    assert!(store.contains("TOKEN"));
    assert!(!store.contains("TOKE"));
}

#[test]
fn missing_and_unreadable_secrets_are_told_apart() {
    let mut store = store_of(&["A"]);
    store.add_sealed("BAD".to_string(), "%%%".to_string());
    let mut first = key(1);
    assert_eq!(store.decrypt_or_fail("NONE", &mut first).err(), Some(StoreError::NotFound));
    assert_eq!(first.as_bytes(), &[0u8; 32]);
    assert_eq!(
        store.decrypt_or_fail("BAD", &mut key(1)).err().map(|e| e.kind()),
        Some(StoreFailure::Decrypt(DecryptKind::InvalidBase64))
    );
    assert_eq!(
        store.decrypt_or_fail("A", &mut key(2)).err(),
        Some(StoreError::Decrypt(DecryptError::Crypto))
    );
    assert_eq!(store.open_secret("NONE", &key(1)).err(), Some(StoreError::NotFound));
}

#[test]
fn listing_is_sorted_by_name() {
    let store = store_of(&["b", "C", "a", "B", "ab", "", "\u{e9}", "z"]);
    assert_eq!(listing(&store), vec!["", "B", "C", "a", "ab", "b", "z", "\u{e9}"]);
    assert_eq!(
        store.keys(),
        vec!["b", "C", "a", "B", "ab", "", "\u{e9}", "z"]
            .into_iter()
            .map(String::from)
            .collect::<Vec<_>>()
    );
}

#[test]
fn listing_twice_gives_the_same_sequence() {
    let store = store_of(&["m", "x", "a", "k"]);
    let first: Vec<(String, String)> =
        store.iter().iter().map(|(n, v)| (n.to_string(), v.blob().to_string())).collect();
    let second: Vec<(String, String)> =
        store.iter().iter().map(|(n, v)| (n.to_string(), v.blob().to_string())).collect();
    assert_eq!(first, second);
    assert_eq!(first.len(), 4);
}

#[test]
fn listed_values_are_the_stored_blobs() {
    let mut store = Store::new();
    let blob = seal(&key(6), "v");
    store.add_sealed("N".to_string(), blob.clone());
    let entries = store.iter();
    assert_eq!(entries.len(), 1);
    assert_eq!(entries[0].0, "N");
    assert_eq!(entries[0].1.blob(), blob);
    let opened = entries[0].1.decrypt(&mut key(6)).expect("opens");
    assert_eq!(opened.value(), "v");
}

#[test]
fn opened_values_can_be_wiped() {
    let store = store_of(&["A"]);
    let mut opened = store.open_secret("A", &key(1)).expect("opens");
    assert_eq!(opened.value(), "value of A");
    opened.wipe();
    assert_eq!(opened.value(), "");
}

#[test]
fn a_taken_name_is_overwritten_only_on_request() {
    let store = store_of(&["TAKEN"]);
    assert_eq!(store.decide_add("FREE", false), AddDecision::Add);
    assert_eq!(store.decide_add("FREE", true), AddDecision::Add);
    assert_eq!(store.decide_add("TAKEN", true), AddDecision::Overwrite);
    assert_eq!(store.decide_add("TAKEN", false), AddDecision::Keep);
}

#[test]
fn names_are_kept_in_upper_case() {
    assert_eq!(normalize_name("db_url"), "DB_URL");
    assert_eq!(normalize_name("Api-Key2"), "API-KEY2");
    assert_eq!(normalize_name("stra\u{df}e"), "STRASSE");
}

#[test]
fn store_goes_to_a_table_and_back() {
    let mut table = Table::new();
    table.insert("A".to_string(), "blob-a".to_string());
    table.insert("B".to_string(), "blob-b".to_string());
    let store = Store::from_table(table);
    assert_eq!(store.get("B").expect("there").blob(), "blob-b");
    let back = store.into_table();
    assert_eq!(back.len(), 2);
    assert_eq!(back.name_at(0), "A");
    assert_eq!(back.value_at(0), "blob-a");
}
