use vault_core::generator::generate_password;
use vault_core::passwords::{Password, Passwords};

fn ids(store: &Passwords) -> Vec<i32> {
    store.inner.iter().map(|e| e.id).collect()
}

fn is_symbol(c: char) -> bool {
    matches!(c, '!'..='/' | ':'..='@' | '['..='`' | '{'..='~')
}

fn assert_generated(secret: &str) {
    let n = secret.chars().count();
    assert!((12..20).contains(&n), "length {}", n);
    assert!(secret
        .chars()
        .all(|c| c.is_ascii_digit() || c.is_ascii_lowercase() || c.is_ascii_uppercase() || is_symbol(c)));
    assert!(secret.chars().any(|c| c.is_ascii_digit()));
    assert!(secret.chars().any(|c| c.is_ascii_lowercase()));
    assert!(secret.chars().any(|c| c.is_ascii_uppercase()));
    assert!(secret.chars().any(is_symbol));
}

#[test]
fn new_entry_holds_its_parts() {
    let entry = Password::new(4, "secret".to_string(), "notes".to_string());
    assert_eq!(entry.id, 4);
    assert_eq!(entry.password, "secret");
    assert_eq!(entry.notes, "notes");
    assert_eq!(entry.clone(), entry);
}

#[test]
fn empty_store_has_no_entries() {
    assert!(Passwords::empty().inner.is_empty());
    assert_eq!(Passwords::empty().next_id(), Some(1));
}

#[test]
fn ids_count_up_from_one_and_follow_the_largest() {
    let mut store = Passwords::empty();
    let first = store.add_password("a".to_string());
    let second = store.add_password("b".to_string());
    let third = store.add_password("c".to_string());
    assert_eq!((first.id, second.id, third.id), (1, 2, 3));
    assert_eq!(ids(&store), vec![1, 2, 3]);

    store.delete_password(2);
    assert_eq!(ids(&store), vec![1, 3]);
    let fourth = store.add_password("d".to_string());
    assert_eq!(fourth.id, 4);
    assert_eq!(ids(&store), vec![1, 3, 4]);
}

#[test]
fn id_of_a_deleted_last_entry_comes_back() {
    let mut store = Passwords::empty();
    store.add_entry("x".to_string(), "a".to_string());
    store.add_entry("y".to_string(), "b".to_string());
    store.delete_password(2);
    let again = store.add_entry("z".to_string(), "c".to_string());
    assert_eq!(again.id, 2);
    assert_eq!(again.password, "z");
    assert_eq!(ids(&store), vec![1, 2]);
}

#[test]
fn next_id_follows_the_largest_wherever_it_stands() {
    let store = Passwords {
        inner: vec![
            Password::new(7, String::new(), String::new()),
            Password::new(-3, String::new(), String::new()),
            Password::new(5, String::new(), String::new()),
        ],
    };
    assert_eq!(store.next_id(), Some(8));
    let negative = Passwords { inner: vec![Password::new(-3, String::new(), String::new())] };
    assert_eq!(negative.next_id(), Some(-2));
}

#[test]
fn no_id_is_left_above_the_largest_there_is() {
    let store = Passwords { inner: vec![Password::new(i32::MAX, String::new(), String::new())] };
    assert_eq!(store.next_id(), None);
    let store = Passwords { inner: vec![Password::new(i32::MAX - 1, String::new(), String::new())] };
    assert_eq!(store.next_id(), Some(i32::MAX));
}

#[test]
fn added_entry_has_the_notes_and_a_generated_secret() {
    let mut store = Passwords::empty();
    let entry = store.add_password("checking".to_string());
    assert_eq!(entry.notes, "checking");
    assert_generated(&entry.password);
    assert_eq!(store.inner, vec![entry]);
}

#[test]
fn update_replaces_in_place() {
    let mut store = Passwords::empty();
    store.add_entry("one".to_string(), "a".to_string());
    store.add_entry("two".to_string(), "b".to_string());
    store.add_entry("three".to_string(), "c".to_string());
    store.update_password(2, "deux".to_string(), "bb".to_string());
    assert_eq!(
        store.inner,
        vec![
            Password::new(1, "one".to_string(), "a".to_string()),
            Password::new(2, "deux".to_string(), "bb".to_string()),
            Password::new(3, "three".to_string(), "c".to_string()),
        ]
    );
}

#[test]
fn update_of_an_id_that_no_entry_has_changes_nothing() {
    let mut store = Passwords::empty();
    store.add_entry("one".to_string(), "a".to_string());
    store.update_password(9, "x".to_string(), "y".to_string());
    assert_eq!(store.inner, vec![Password::new(1, "one".to_string(), "a".to_string())]);
    let mut empty = Passwords::empty();
    empty.update_password(1, "x".to_string(), "y".to_string());
    assert!(empty.inner.is_empty());
}

#[test]
fn delete_removes_the_first_with_the_id() {
    let mut store = Passwords {
        inner: vec![
            Password::new(1, "a".to_string(), String::new()),
            Password::new(2, "b".to_string(), String::new()),
            Password::new(2, "c".to_string(), String::new()),
        ],
    };
    store.delete_password(2);
    assert_eq!(
        store.inner,
        vec![
            Password::new(1, "a".to_string(), String::new()),
            Password::new(2, "c".to_string(), String::new()),
        ]
    );
}

#[test]
fn delete_of_an_id_that_no_entry_has_changes_nothing() {
    let mut store = Passwords::empty();
    store.add_entry("one".to_string(), "a".to_string());
    store.delete_password(5);
    assert_eq!(ids(&store), vec![1]);
    let mut empty = Passwords::empty();
    empty.delete_password(1);
    assert!(empty.inner.is_empty());
}

#[test]
fn ids_stay_distinct() {
    let mut store = Passwords::empty();
    for round in 0..20 {
        store.add_entry(format!("s{}", round), String::new());
        if round % 3 == 0 {
            store.delete_password(round / 2);
        }
        store.update_password(round, "u".to_string(), String::new());
        let mut seen = ids(&store);
        seen.sort();
        seen.dedup();
        assert_eq!(seen.len(), store.inner.len());
    }
}

#[test]
fn random_one_is_a_sample_entry() {
    let store = Passwords::random_one();
    assert_eq!(store.inner.len(), 1);
    assert_eq!(store.inner[0].id, 1);
    assert_eq!(store.inner[0].notes, "A random example password");
    assert_generated(&store.inner[0].password);
}

#[test]
fn generated_secrets_keep_the_rules() {
    let mut lengths = Vec::new();
    for _ in 0..200 {
        let secret = generate_password();
        assert_generated(&secret);
        assert_generated(&Passwords::generate_password());
        lengths.push(secret.chars().count());
    }
    lengths.sort();
    lengths.dedup();
    assert!(lengths.len() > 1);
}
