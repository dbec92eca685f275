use rustdesk_ab::access::{ensure_personal_ab, ensure_personal_with, get_personal, resolve_ab_guid};
use rustdesk_ab::auth::Claims;
use rustdesk_ab::error::ErrorKind;
use rustdesk_ab::store::Store;

#[test]
fn personal_book_is_created_once() {
    let mut store = Store::new();
    let first = ensure_personal_ab(&mut store, 1, "2024-01-01 00:00:00").unwrap();
    let second = ensure_personal_ab(&mut store, 1, "2024-01-02 00:00:00").unwrap();
    assert_eq!(first, second);
    assert_eq!(first.len(), 36);
}

#[test]
fn unknown_book_is_forbidden() {
    let mut store = Store::new();
    let err = resolve_ab_guid(&mut store, 1, "no-such-book", "2024-01-01 00:00:00").unwrap_err();
    assert_eq!(err.kind(), ErrorKind::Forbidden);
    assert_eq!(err.client_message(), "Access denied to this address book");
}

#[test]
fn personal_profile_gives_full_control_to_its_owner() {
    let mut store = Store::new();
    let claims = Claims { sub: "alice".to_string(), user_id: 1, is_admin: false, exp: 0, iat: 0 };
    let first = get_personal(&mut store, &claims, "t1").unwrap();
    assert_eq!(first.data.name, "Personal");
    assert_eq!(first.data.owner, "alice");
    assert_eq!(first.data.rule, 3);
    assert_eq!(first.data.note, "");
    assert_eq!(first.data.guid.len(), 36);
    let second = get_personal(&mut store, &claims, "t2").unwrap();
    assert_eq!(first, second);
    let books = store.snapshot().address_books;
    assert_eq!(books.len(), 1);
    assert_eq!(books[0].guid, first.data.guid);
    assert_eq!(books[0].owner_id, 1);
    assert!(books[0].is_personal);
    assert_eq!(books[0].created_at, "t1");
}

#[test]
fn a_taken_identifier_is_a_conflict_and_changes_nothing() {
    let mut store = Store::new();
    assert_eq!(ensure_personal_with(&mut store, 1, "g".to_string(), "t").unwrap(), "g");
    assert_eq!(ensure_personal_with(&mut store, 1, "other".to_string(), "t").unwrap(), "g");
    let err = ensure_personal_with(&mut store, 2, "g".to_string(), "t").unwrap_err();
    assert_eq!(err.kind(), ErrorKind::Conflict);
    assert_eq!(err.status_code(), 409);
    assert_eq!(store.snapshot().address_books.len(), 1);
    assert_eq!(ensure_personal_with(&mut store, 2, "h".to_string(), "t").unwrap(), "h");
    assert_eq!(store.snapshot().address_books.len(), 2);
}

#[test]
fn each_user_gets_a_book_of_their_own() {
    let mut store = Store::new();
    let a = ensure_personal_ab(&mut store, 1, "t").unwrap();
    let b = ensure_personal_ab(&mut store, 2, "t").unwrap();
    assert_ne!(a, b);
    assert_eq!(resolve_ab_guid(&mut store, 1, &a, "t").unwrap(), a);
    assert_eq!(resolve_ab_guid(&mut store, 1, &b, "t").unwrap_err().kind(), ErrorKind::Forbidden);
    assert_eq!(store.snapshot().address_books.len(), 2);
}
