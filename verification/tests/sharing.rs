use rustdesk_ab::access::{may_access, resolve_ab_guid};
use rustdesk_ab::error::ErrorKind;
use rustdesk_ab::loading::Tables;
use rustdesk_ab::models::address_book::{AddressBook, Share, ShareTarget};
use rustdesk_ab::models::group::{Group, UserGroup};
use rustdesk_ab::models::peer::{Peer, PeerTag};
use rustdesk_ab::models::tag::Tag;
use rustdesk_ab::models::user::User;
use rustdesk_ab::sharing::get_shared_profiles;
use rustdesk_ab::store::Store;

const NOW: &str = "2024-05-01 12:00:00";

fn user(id: i64, name: &str) -> User {
    User {
        id,
        username: name.to_string(),
        password_hash: "x".to_string(),
        name: String::new(),
        email: String::new(),
        is_admin: false,
        status: 1,
        created_at: NOW.to_string(),
        updated_at: NOW.to_string(),
    }
}

fn book(guid: &str, name: &str, owner_id: i64, is_personal: bool) -> AddressBook {
    AddressBook { guid: guid.to_string(), name: name.to_string(), owner_id, is_personal, created_at: NOW.to_string() }
}

fn share(guid: &str, target: ShareTarget, rule: i32) -> Share {
    Share { ab_guid: guid.to_string(), target, rule }
}

fn tables() -> Tables {
    Tables {
        users: vec![user(1, "alice"), user(2, "bob"), user(3, "carol")],
        groups: vec![Group { id: 10, name: "ops".to_string(), note: String::new(), created_at: NOW.to_string() }],
        user_groups: vec![UserGroup { user_id: 3, group_id: 10 }],
        address_books: vec![
            book("team", "Team", 1, false),
            book("alice-own", "Personal", 1, true),
            book("orphan", "Orphan", 99, false),
        ],
        peers: vec![],
        tags: vec![],
        peer_tags: vec![],
        shares: vec![
            share("team", ShareTarget::User(2), 1),
            share("team", ShareTarget::Group(10), 2),
            share("alice-own", ShareTarget::User(2), 3),
            share("orphan", ShareTarget::User(2), 1),
            share("nowhere", ShareTarget::User(2), 1),
        ],
    }
}

#[test]
fn shared_books_are_listed_without_personal_ones() {
    let store = Store::load(tables()).unwrap();
    let bob = get_shared_profiles(&store, 2);
    assert_eq!(bob.total, 2);
    assert_eq!(bob.data[0].guid, "team");
    assert_eq!(bob.data[0].name, "Team");
    assert_eq!(bob.data[0].owner, "alice");
    assert_eq!(bob.data[0].rule, 1);
    assert_eq!(bob.data[0].note, "");
    assert_eq!(bob.data[1].guid, "orphan");
    assert_eq!(bob.data[1].owner, "");
    let carol = get_shared_profiles(&store, 3);
    assert_eq!(carol.total, 1);
    assert_eq!(carol.data[0].rule, 2);
    assert_eq!(get_shared_profiles(&store, 1).total, 0);
}

#[test]
fn access_goes_by_owner_share_and_group() {
    let mut store = Store::load(tables()).unwrap();
    assert!(may_access(&store, 1, "team"));
    assert!(may_access(&store, 2, "team"));
    assert!(may_access(&store, 3, "team"));
    assert!(may_access(&store, 2, "alice-own"));
    assert!(!may_access(&store, 3, "alice-own"));
    assert!(!may_access(&store, 2, "nowhere"));
    assert_eq!(resolve_ab_guid(&mut store, 3, "team", NOW).unwrap(), "team");
    let hidden = resolve_ab_guid(&mut store, 3, "alice-own", NOW).unwrap_err();
    let absent = resolve_ab_guid(&mut store, 3, "nowhere", NOW).unwrap_err();
    assert_eq!(hidden.kind(), ErrorKind::Forbidden);
    assert_eq!(hidden, absent);
    assert_eq!(resolve_ab_guid(&mut store, 1, "", NOW).unwrap(), "alice-own");
}

#[test]
fn loading_refuses_rows_that_break_a_rule() {
    let mut t = tables();
    t.users.push(user(4, "alice"));
    assert!(Store::load(t).is_none());
    let mut t = tables();
    t.users.swap(0, 1);
    assert!(Store::load(t).is_none());
    let mut t = tables();
    t.address_books.push(book("second", "Personal", 1, true));
    assert!(Store::load(t).is_none());
    let mut t = tables();
    t.address_books.push(book("team", "Again", 5, false));
    assert!(Store::load(t).is_none());
    let mut t = tables();
    t.peer_tags.push(PeerTag { peer_id: 1, tag_id: 1 });
    assert!(Store::load(t).is_none());
}

#[test]
fn loading_checks_that_links_stay_in_one_book() {
    let peer = |id: i64, ab: &str, rid: &str| Peer {
        id,
        ab_guid: ab.to_string(),
        rustdesk_id: rid.to_string(),
        hash: String::new(),
        username: String::new(),
        hostname: String::new(),
        platform: String::new(),
        alias: String::new(),
        note: String::new(),
        created_at: NOW.to_string(),
        updated_at: NOW.to_string(),
    };
    let tag = |id: i64, ab: &str, name: &str| Tag { id, ab_guid: ab.to_string(), name: name.to_string(), color: 0 };
    let mut t = tables();
    t.peers = vec![peer(1, "team", "a"), peer(2, "orphan", "a")];
    t.tags = vec![tag(1, "team", "x"), tag(2, "orphan", "x")];
    t.peer_tags = vec![PeerTag { peer_id: 1, tag_id: 1 }, PeerTag { peer_id: 2, tag_id: 2 }];
    let store = Store::load(t).unwrap();
    let copy = store.snapshot();
    assert_eq!(copy.peers.len(), 2);
    assert_eq!(copy.peer_tags, vec![PeerTag { peer_id: 1, tag_id: 1 }, PeerTag { peer_id: 2, tag_id: 2 }]);
    assert!(Store::load(copy).is_some());

    let mut t = tables();
    t.peers = vec![peer(1, "team", "a")];
    t.tags = vec![tag(1, "orphan", "x")];
    t.peer_tags = vec![PeerTag { peer_id: 1, tag_id: 1 }];
    assert!(Store::load(t).is_none());

    let mut t = tables();
    t.peers = vec![peer(1, "team", "a"), peer(2, "team", "a")];
    assert!(Store::load(t).is_none());

    let mut t = tables();
    t.peers = vec![peer(1, "team", "a")];
    t.tags = vec![tag(1, "team", "x")];
    t.peer_tags = vec![PeerTag { peer_id: 1, tag_id: 1 }, PeerTag { peer_id: 1, tag_id: 1 }];
    assert!(Store::load(t).is_none());
}

#[test]
fn a_book_shared_twice_is_listed_once_with_the_greatest_rule() {
    let mut t = tables();
    t.shares.push(share("team", ShareTarget::User(3), 1));
    t.shares.push(share("team", ShareTarget::Group(10), 3));
    t.shares.push(share("team", ShareTarget::User(3), 2));
    t.shares.push(share("orphan", ShareTarget::Group(10), 5));
    t.shares.push(share("orphan", ShareTarget::Group(11), 9));
    let store = Store::load(t).unwrap();
    let carol = get_shared_profiles(&store, 3);
    assert_eq!(carol.total, 2);
    assert_eq!(carol.data.len(), 2);
    assert_eq!(carol.data[0].guid, "team");
    assert_eq!(carol.data[0].rule, 3);
    assert_eq!(carol.data[0].owner, "alice");
    assert_eq!(carol.data[1].guid, "orphan");
    assert_eq!(carol.data[1].rule, 5);
    let bob = get_shared_profiles(&store, 2);
    assert_eq!(bob.data.iter().map(|p| (p.guid.as_str(), p.rule)).collect::<Vec<_>>(), vec![("team", 1), ("orphan", 1)]);
}

#[test]
fn a_book_that_is_merely_owned_is_not_listed() {
    let mut t = tables();
    t.shares.push(share("team", ShareTarget::User(1), -4));
    let store = Store::load(t).unwrap();
    assert_eq!(get_shared_profiles(&store, 99).total, 0);
    let alice = get_shared_profiles(&store, 1);
    assert_eq!(alice.total, 1);
    assert_eq!(alice.data[0].rule, -4);
}
