use std::collections::HashMap;

use rustdesk_ab::access::resolve_ab_guid;
use rustdesk_ab::error::ErrorKind;
use rustdesk_ab::models::address_book::{LegacyAbData, LegacyPeer};
use rustdesk_ab::models::peer::{AddPeerRequest, PeersQuery};
use rustdesk_ab::models::tag::AddTagRequest;
use rustdesk_ab::peers::{add_peer, get_peers};
use rustdesk_ab::store::Store;
use rustdesk_ab::sync::{first_repeat, get_ab_legacy, update_ab_legacy};
use rustdesk_ab::tags::{add_tag, get_tags};

const NOW: &str = "2024-05-01 12:00:00";

fn peer(id: &str, tags: &[&str]) -> AddPeerRequest {
    AddPeerRequest {
        id: id.to_string(),
        hash: "h".to_string(),
        username: "u".to_string(),
        hostname: "host".to_string(),
        platform: "Windows".to_string(),
        alias: "a".to_string(),
        tags: tags.iter().map(|t| t.to_string()).collect(),
        note: String::new(),
    }
}

fn legacy(id: &str, tags: &[&str]) -> LegacyPeer {
    LegacyPeer {
        id: id.to_string(),
        hash: String::new(),
        username: String::new(),
        hostname: String::new(),
        platform: String::new(),
        alias: String::new(),
        tags: tags.iter().map(|t| t.to_string()).collect(),
    }
}

fn book_g1(store: &mut Store) -> String {
    let g1 = resolve_ab_guid(store, 1, "", NOW).unwrap();
    add_tag(store, 1, &g1, &AddTagRequest { name: "work".to_string(), color: 0xFF00FF00 }, NOW).unwrap();
    add_tag(store, 1, &g1, &AddTagRequest { name: "home".to_string(), color: 0xFFFF0000 }, NOW).unwrap();
    add_peer(store, 1, &g1, &peer("rd1", &["work"]), NOW).unwrap();
    g1
}

#[test]
fn export_holds_colors_and_one_tagged_peer() {
    let mut store = Store::new();
    book_g1(&mut store);
    let doc = get_ab_legacy(&mut store, 1, NOW).unwrap();
    assert_eq!(doc.tags, vec!["home".to_string(), "work".to_string()]);
    let colors: HashMap<String, i64> = serde_json::from_str(&doc.tag_colors).unwrap();
    let mut expected = HashMap::new();
    expected.insert("work".to_string(), 4278255360i64);
    expected.insert("home".to_string(), 4294901760i64);
    assert_eq!(colors, expected);
    assert_eq!(doc.peers.len(), 1);
    assert_eq!(doc.peers[0].id, "rd1");
    assert_eq!(doc.peers[0].tags, vec!["work".to_string()]);
}

#[test]
fn export_is_the_same_for_the_same_state() {
    let mut store = Store::new();
    book_g1(&mut store);
    let first = get_ab_legacy(&mut store, 1, NOW).unwrap();
    let second = get_ab_legacy(&mut store, 1, NOW).unwrap();
    assert_eq!(first, second);
    assert_eq!(first.tag_colors, "{\"home\":4294901760,\"work\":4278255360}");
}

#[test]
fn import_of_an_export_gives_the_same_export() {
    let mut store = Store::new();
    let g1 = book_g1(&mut store);
    add_peer(&mut store, 1, &g1, &peer("rd0", &["home", "work"]), NOW).unwrap();
    let doc = get_ab_legacy(&mut store, 1, NOW).unwrap();
    let again = get_ab_legacy(&mut store, 1, NOW).unwrap();
    update_ab_legacy(&mut store, 1, &Ok(again), "2025-01-01 00:00:00").unwrap();
    assert_eq!(get_ab_legacy(&mut store, 1, NOW).unwrap(), doc);
    let tags = get_tags(&mut store, 1, &g1, NOW).unwrap();
    assert_eq!(tags.data[0].color, 4294901760);
    assert_eq!(tags.data[1].color, 4278255360);
}

#[test]
fn import_replaces_everything_in_the_book() {
    let mut store = Store::new();
    let g1 = book_g1(&mut store);
    let other = resolve_ab_guid(&mut store, 2, "", NOW).unwrap();
    add_peer(&mut store, 2, &other, &peer("keep", &[]), NOW).unwrap();
    let doc = LegacyAbData {
        tags: vec!["new".to_string()],
        peers: vec![legacy("p2", &["new", "gone"]), legacy("p1", &[])],
        tag_colors: "{\"new\": 7}".to_string(),
    };
    update_ab_legacy(&mut store, 1, &Ok(doc), NOW).unwrap();
    let listed = get_peers(&mut store, 1, &PeersQuery { current: 0, pageSize: 100, ab: g1.clone() }, NOW).unwrap();
    assert_eq!(listed.data.iter().map(|p| p.id.as_str()).collect::<Vec<_>>(), vec!["p1", "p2"]);
    assert_eq!(listed.data[1].tags, vec!["new".to_string()]);
    assert!(listed.data[0].tags.is_empty());
    let tags = get_tags(&mut store, 1, &g1, NOW).unwrap();
    assert_eq!(tags.total, 1);
    assert_eq!(tags.data[0].name, "new");
    assert_eq!(tags.data[0].color, 7);
    let kept = get_peers(&mut store, 2, &PeersQuery { current: 0, pageSize: 100, ab: other }, NOW).unwrap();
    assert_eq!(kept.total, 1);
}

#[test]
fn unreadable_colors_give_every_tag_the_default() {
    let mut store = Store::new();
    let g1 = resolve_ab_guid(&mut store, 1, "", NOW).unwrap();
    let doc = LegacyAbData {
        tags: vec!["a".to_string(), "b".to_string()],
        peers: vec![],
        tag_colors: "this is not json".to_string(),
    };
    update_ab_legacy(&mut store, 1, &Ok(doc), NOW).unwrap();
    let tags = get_tags(&mut store, 1, &g1, NOW).unwrap();
    assert_eq!(tags.total, 2);
    assert!(tags.data.iter().all(|t| t.color == 4278190080));
}

#[test]
fn colors_of_the_wrong_type_count_as_unreadable() {
    let mut store = Store::new();
    let g1 = resolve_ab_guid(&mut store, 1, "", NOW).unwrap();
    let doc = LegacyAbData {
        tags: vec!["a".to_string()],
        peers: vec![],
        tag_colors: "{\"a\": \"red\"}".to_string(),
    };
    update_ab_legacy(&mut store, 1, &Ok(doc), NOW).unwrap();
    assert_eq!(get_tags(&mut store, 1, &g1, NOW).unwrap().data[0].color, 4278190080);
}

#[test]
fn a_tag_without_a_color_gets_the_default() {
    let mut store = Store::new();
    let g1 = resolve_ab_guid(&mut store, 1, "", NOW).unwrap();
    let doc = LegacyAbData {
        tags: vec!["a".to_string(), "b".to_string()],
        peers: vec![],
        tag_colors: "{\"b\": 12}".to_string(),
    };
    update_ab_legacy(&mut store, 1, &Ok(doc), NOW).unwrap();
    let tags = get_tags(&mut store, 1, &g1, NOW).unwrap();
    assert_eq!(tags.data[0].color, 4278190080);
    assert_eq!(tags.data[1].color, 12);
}

#[test]
fn a_document_that_could_not_be_read_is_a_bad_request() {
    let mut store = Store::new();
    book_g1(&mut store);
    let before = get_ab_legacy(&mut store, 1, NOW).unwrap();
    let err = update_ab_legacy(&mut store, 1, &Err("expected value at line 1".to_string()), NOW).unwrap_err();
    assert_eq!(err.kind(), ErrorKind::BadRequest);
    assert_eq!(err.client_message(), "Invalid address book data: expected value at line 1");
    assert_eq!(err.status_code(), 400);
    assert_eq!(get_ab_legacy(&mut store, 1, NOW).unwrap(), before);
}

#[test]
fn a_document_with_a_tag_twice_changes_nothing() {
    let mut store = Store::new();
    book_g1(&mut store);
    let before = get_ab_legacy(&mut store, 1, NOW).unwrap();
    let doc = LegacyAbData {
        tags: vec!["x".to_string(), "x".to_string()],
        peers: vec![],
        tag_colors: "{}".to_string(),
    };
    let err = update_ab_legacy(&mut store, 1, &Ok(doc), NOW).unwrap_err();
    assert_eq!(err.kind(), ErrorKind::Conflict);
    assert_eq!(err.client_message(), "Tag 'x' is named twice");
    let doc = LegacyAbData {
        tags: vec![],
        peers: vec![legacy("p", &[]), legacy("q", &[]), legacy("p", &[])],
        tag_colors: "{}".to_string(),
    };
    let err = update_ab_legacy(&mut store, 1, &Ok(doc), NOW).unwrap_err();
    assert_eq!(err.kind(), ErrorKind::Conflict);
    assert_eq!(err.client_message(), "Peer 'p' is named twice");
    assert_eq!(get_ab_legacy(&mut store, 1, NOW).unwrap(), before);
}

#[test]
fn names_with_quotes_survive_the_color_text() {
    let mut store = Store::new();
    let g1 = resolve_ab_guid(&mut store, 1, "", NOW).unwrap();
    let odd = "a \"quoted\" \\ name \u{e9}\n";
    add_tag(&mut store, 1, &g1, &AddTagRequest { name: odd.to_string(), color: -5 }, NOW).unwrap();
    let doc = get_ab_legacy(&mut store, 1, NOW).unwrap();
    update_ab_legacy(&mut store, 1, &Ok(doc), NOW).unwrap();
    let tags = get_tags(&mut store, 1, &g1, NOW).unwrap();
    assert_eq!(tags.data[0].name, odd);
    assert_eq!(tags.data[0].color, -5);
}

#[test]
fn extreme_colors_survive_the_color_text() {
    let mut store = Store::new();
    let g1 = resolve_ab_guid(&mut store, 1, "", NOW).unwrap();
    for (name, color) in [("min", i64::MIN), ("max", i64::MAX), ("zero", 0), ("", -1), ("\\u0000", 1)] {
        add_tag(&mut store, 1, &g1, &AddTagRequest { name: name.to_string(), color }, NOW).unwrap();
    }
    add_tag(&mut store, 1, &g1, &AddTagRequest { name: "\u{0}\u{7f}\u{2028}\u{10ffff}".to_string(), color: 2 }, NOW)
        .unwrap();
    let before = get_tags(&mut store, 1, &g1, NOW).unwrap();
    let doc = get_ab_legacy(&mut store, 1, NOW).unwrap();
    update_ab_legacy(&mut store, 1, &Ok(doc), NOW).unwrap();
    let after = get_tags(&mut store, 1, &g1, NOW).unwrap();
    assert_eq!(before, after);
    assert_eq!(after.total, 6);
}

#[test]
fn the_first_repeated_name_is_found() {
    let names = |v: &[&str]| v.iter().map(|s| s.to_string()).collect::<Vec<_>>();
    assert_eq!(first_repeat(&names(&[])), None);
    assert_eq!(first_repeat(&names(&["a", "b"])), None);
    assert_eq!(first_repeat(&names(&["a", "b", "a"])), Some(2));
    assert_eq!(first_repeat(&names(&["a", "b", "b", "a"])), Some(2));
    assert_eq!(first_repeat(&names(&["x", "x"])), Some(1));
}
