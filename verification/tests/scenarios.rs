use rustdesk_ab::access::resolve_ab_guid;
use rustdesk_ab::error::ErrorKind;
use rustdesk_ab::loading::Tables;
use rustdesk_ab::models::address_book::AddressBook;
use rustdesk_ab::models::peer::{AddPeerRequest, DeletePeersRequest, Peer, PeersQuery};
use rustdesk_ab::models::tag::{
    AddTagRequest, DeleteTagRequest, RenameTagRequest, Tag, UpdateTagColorRequest,
};
use rustdesk_ab::peers::{add_peer, delete_peers, get_peers, page_bounds};
use rustdesk_ab::store::Store;
use rustdesk_ab::tags::{add_tag, delete_tags, get_tags, rename_tag, total_of, update_tag_color};

const NOW: &str = "2024-05-01 12:00:00";

fn peer(id: &str, tags: &[&str]) -> AddPeerRequest {
    AddPeerRequest {
        id: id.to_string(),
        hash: String::new(),
        username: "user".to_string(),
        hostname: "host".to_string(),
        platform: "Linux".to_string(),
        alias: String::new(),
        tags: tags.iter().map(|t| t.to_string()).collect(),
        note: String::new(),
    }
}

fn all_peers(ab: &str) -> PeersQuery {
    PeersQuery { current: 0, pageSize: 100, ab: ab.to_string() }
}

#[test]
fn first_add_skips_missing_tag_and_second_links_it() {
    let mut store = Store::new();
    let g1 = resolve_ab_guid(&mut store, 1, "", NOW).unwrap();
    assert_eq!(resolve_ab_guid(&mut store, 1, "", NOW).unwrap(), g1);

    add_peer(&mut store, 1, &g1, &peer("rd1", &["work"]), NOW).unwrap();
    let listed = get_peers(&mut store, 1, &all_peers(&g1), NOW).unwrap();
    assert_eq!(listed.total, 1);
    assert_eq!(listed.data.len(), 1);
    assert_eq!(listed.data[0].id, "rd1");
    assert!(listed.data[0].tags.is_empty());

    add_tag(&mut store, 1, &g1, &AddTagRequest { name: "work".to_string(), color: 0xFF00FF00 }, NOW).unwrap();
    add_peer(&mut store, 1, &g1, &peer("rd1", &["work"]), NOW).unwrap();
    let listed = get_peers(&mut store, 1, &all_peers(&g1), NOW).unwrap();
    assert_eq!(listed.total, 1);
    assert_eq!(listed.data[0].tags, vec!["work".to_string()]);
}

#[test]
fn upsert_links_only_the_tag_that_exists() {
    let mut store = Store::new();
    let g = resolve_ab_guid(&mut store, 7, "", NOW).unwrap();
    add_tag(&mut store, 7, &g, &AddTagRequest { name: "valid".to_string(), color: 1 }, NOW).unwrap();
    add_peer(&mut store, 7, &g, &peer("p", &["valid", "ghost"]), NOW).unwrap();
    let listed = get_peers(&mut store, 7, &all_peers(&g), NOW).unwrap();
    assert_eq!(listed.data[0].tags, vec!["valid".to_string()]);
    let tags = get_tags(&mut store, 7, &g, NOW).unwrap();
    assert_eq!(tags.total, 1);
}

#[test]
fn deleting_a_missing_peer_changes_nothing() {
    let mut store = Store::new();
    let g = resolve_ab_guid(&mut store, 1, "", NOW).unwrap();
    add_peer(&mut store, 1, &g, &peer("a", &[]), NOW).unwrap();
    let req = DeletePeersRequest { ids: vec!["nobody".to_string()], id: Some("nowhere".to_string()) };
    delete_peers(&mut store, 1, &g, &req, NOW).unwrap();
    let listed = get_peers(&mut store, 1, &all_peers(&g), NOW).unwrap();
    assert_eq!(listed.total, 1);
    assert_eq!(listed.data[0].id, "a");
}

#[test]
fn delete_merges_batch_and_single_id() {
    let mut store = Store::new();
    let g = resolve_ab_guid(&mut store, 1, "", NOW).unwrap();
    for id in ["a", "b", "c"] {
        add_peer(&mut store, 1, &g, &peer(id, &[]), NOW).unwrap();
    }
    let req = DeletePeersRequest { ids: vec!["a".to_string()], id: Some("c".to_string()) };
    delete_peers(&mut store, 1, &g, &req, NOW).unwrap();
    let listed = get_peers(&mut store, 1, &all_peers(&g), NOW).unwrap();
    assert_eq!(listed.data.iter().map(|p| p.id.as_str()).collect::<Vec<_>>(), vec!["b"]);
}

#[test]
fn peers_come_in_order_and_in_pages() {
    let mut store = Store::new();
    let g = resolve_ab_guid(&mut store, 1, "", NOW).unwrap();
    for id in ["delta", "alpha", "charlie", "bravo", "echo"] {
        add_peer(&mut store, 1, &g, &peer(id, &[]), NOW).unwrap();
    }
    let ids = |r: &rustdesk_ab::models::peer::PeersResponse| {
        r.data.iter().map(|p| p.id.clone()).collect::<Vec<_>>()
    };
    let page1 = get_peers(&mut store, 1, &PeersQuery { current: 1, pageSize: 2, ab: g.clone() }, NOW).unwrap();
    assert_eq!(ids(&page1), vec!["alpha", "bravo"]);
    assert_eq!(page1.total, 5);
    let page2 = get_peers(&mut store, 1, &PeersQuery { current: 2, pageSize: 2, ab: g.clone() }, NOW).unwrap();
    assert_eq!(ids(&page2), vec!["charlie", "delta"]);
    let page3 = get_peers(&mut store, 1, &PeersQuery { current: 3, pageSize: 2, ab: g.clone() }, NOW).unwrap();
    assert_eq!(ids(&page3), vec!["echo"]);
    assert_eq!(page3.total, 5);
    let page4 = get_peers(&mut store, 1, &PeersQuery { current: 4, pageSize: 2, ab: g.clone() }, NOW).unwrap();
    assert!(page4.data.is_empty());
    let unpaged = get_peers(&mut store, 1, &PeersQuery { current: 0, pageSize: 3, ab: g.clone() }, NOW).unwrap();
    assert_eq!(ids(&unpaged), vec!["alpha", "bravo", "charlie"]);
    let no_limit = get_peers(&mut store, 1, &PeersQuery { current: 5, pageSize: -1, ab: g.clone() }, NOW).unwrap();
    assert_eq!(no_limit.data.len(), 5);
    let far = get_peers(&mut store, 1, &PeersQuery { current: i64::MAX, pageSize: i64::MAX, ab: g }, NOW).unwrap();
    assert!(far.data.is_empty());
    assert_eq!(far.total, 5);
}

#[test]
fn upsert_overwrites_fields_and_keeps_one_row() {
    let mut store = Store::new();
    let g = resolve_ab_guid(&mut store, 1, "", NOW).unwrap();
    add_peer(&mut store, 1, &g, &peer("a", &[]), NOW).unwrap();
    let mut again = peer("a", &[]);
    again.alias = "desk".to_string();
    again.note = "second".to_string();
    add_peer(&mut store, 1, &g, &again, "2024-05-02 00:00:00").unwrap();
    let listed = get_peers(&mut store, 1, &all_peers(&g), NOW).unwrap();
    assert_eq!(listed.total, 1);
    assert_eq!(listed.data[0].alias, "desk");
    assert_eq!(listed.data[0].note, "second");
}

#[test]
fn empty_tag_list_keeps_links() {
    let mut store = Store::new();
    let g = resolve_ab_guid(&mut store, 1, "", NOW).unwrap();
    add_tag(&mut store, 1, &g, &AddTagRequest { name: "t".to_string(), color: 5 }, NOW).unwrap();
    add_peer(&mut store, 1, &g, &peer("a", &["t"]), NOW).unwrap();
    add_peer(&mut store, 1, &g, &peer("a", &[]), NOW).unwrap();
    let listed = get_peers(&mut store, 1, &all_peers(&g), NOW).unwrap();
    assert_eq!(listed.data[0].tags, vec!["t".to_string()]);
}

#[test]
fn tags_are_listed_by_name_and_added_once() {
    let mut store = Store::new();
    let g = resolve_ab_guid(&mut store, 1, "", NOW).unwrap();
    for (name, color) in [("work", 1), ("home", 2), ("work", 3)] {
        add_tag(&mut store, 1, &g, &AddTagRequest { name: name.to_string(), color }, NOW).unwrap();
    }
    let tags = get_tags(&mut store, 1, &g, NOW).unwrap();
    assert_eq!(tags.total, 2);
    assert_eq!(tags.data[0].name, "home");
    assert_eq!(tags.data[0].color, 2);
    assert_eq!(tags.data[1].name, "work");
    assert_eq!(tags.data[1].color, 1);
}

#[test]
fn rename_keeps_links_and_refuses_a_taken_name() {
    let mut store = Store::new();
    let g = resolve_ab_guid(&mut store, 1, "", NOW).unwrap();
    add_tag(&mut store, 1, &g, &AddTagRequest { name: "a".to_string(), color: 1 }, NOW).unwrap();
    add_tag(&mut store, 1, &g, &AddTagRequest { name: "b".to_string(), color: 2 }, NOW).unwrap();
    add_peer(&mut store, 1, &g, &peer("p", &["a"]), NOW).unwrap();
    let clash = rename_tag(&mut store, 1, &g, &RenameTagRequest { old: "a".to_string(), new: "b".to_string() }, NOW);
    let clash = clash.unwrap_err();
    assert_eq!(clash.kind(), ErrorKind::Conflict);
    assert_eq!(clash.client_message(), "Tag 'b' already exists");
    rename_tag(&mut store, 1, &g, &RenameTagRequest { old: "a".to_string(), new: "z".to_string() }, NOW).unwrap();
    rename_tag(&mut store, 1, &g, &RenameTagRequest { old: "none".to_string(), new: "b".to_string() }, NOW).unwrap();
    let listed = get_peers(&mut store, 1, &all_peers(&g), NOW).unwrap();
    assert_eq!(listed.data[0].tags, vec!["z".to_string()]);
    let tags = get_tags(&mut store, 1, &g, NOW).unwrap();
    assert_eq!(tags.data.iter().map(|t| t.name.as_str()).collect::<Vec<_>>(), vec!["b", "z"]);
    assert_eq!(tags.data[1].color, 1);
}

#[test]
fn recolor_and_delete_tags() {
    let mut store = Store::new();
    let g = resolve_ab_guid(&mut store, 1, "", NOW).unwrap();
    add_tag(&mut store, 1, &g, &AddTagRequest { name: "a".to_string(), color: 1 }, NOW).unwrap();
    add_tag(&mut store, 1, &g, &AddTagRequest { name: "b".to_string(), color: 2 }, NOW).unwrap();
    add_peer(&mut store, 1, &g, &peer("p", &["a", "b"]), NOW).unwrap();
    update_tag_color(&mut store, 1, &g, &UpdateTagColorRequest { name: "a".to_string(), color: 9 }, NOW).unwrap();
    let tags = get_tags(&mut store, 1, &g, NOW).unwrap();
    assert_eq!(tags.data[0].color, 9);
    let req = DeleteTagRequest { names: vec!["a".to_string(), "missing".to_string()], name: None };
    delete_tags(&mut store, 1, &g, &req, NOW).unwrap();
    let listed = get_peers(&mut store, 1, &all_peers(&g), NOW).unwrap();
    assert_eq!(listed.data[0].tags, vec!["b".to_string()]);
    let req = DeleteTagRequest { names: vec![], name: Some("b".to_string()) };
    delete_tags(&mut store, 1, &g, &req, NOW).unwrap();
    assert_eq!(get_tags(&mut store, 1, &g, NOW).unwrap().total, 0);
    assert!(get_peers(&mut store, 1, &all_peers(&g), NOW).unwrap().data[0].tags.is_empty());
}

#[test]
fn a_stranger_cannot_touch_the_book() {
    let mut store = Store::new();
    let g = resolve_ab_guid(&mut store, 1, "", NOW).unwrap();
    let err = add_peer(&mut store, 2, &g, &peer("x", &[]), NOW).unwrap_err();
    assert_eq!(err.kind(), ErrorKind::Forbidden);
    let missing = add_peer(&mut store, 2, "no-such-book", &peer("x", &[]), NOW).unwrap_err();
    assert_eq!(err, missing);
    assert_eq!(get_peers(&mut store, 1, &all_peers(&g), NOW).unwrap().total, 0);
}

#[test]
fn a_store_without_row_ids_left_fails_and_changes_nothing() {
    let last = Peer {
        id: i64::MAX,
        ab_guid: "other".to_string(),
        rustdesk_id: "z".to_string(),
        hash: String::new(),
        username: String::new(),
        hostname: String::new(),
        platform: String::new(),
        alias: String::new(),
        note: String::new(),
        created_at: NOW.to_string(),
        updated_at: NOW.to_string(),
    };
    let tables = Tables {
        users: vec![],
        groups: vec![],
        user_groups: vec![],
        address_books: vec![AddressBook {
            guid: "g".to_string(),
            name: "Personal".to_string(),
            owner_id: 1,
            is_personal: true,
            created_at: NOW.to_string(),
        }],
        peers: vec![last],
        tags: vec![Tag { id: i64::MAX, ab_guid: "other".to_string(), name: "t".to_string(), color: 0 }],
        peer_tags: vec![],
        shares: vec![],
    };
    let mut store = Store::load(tables).unwrap();
    let err = add_peer(&mut store, 1, "g", &peer("new", &[]), NOW).unwrap_err();
    assert_eq!(err.kind(), ErrorKind::Internal);
    assert_eq!(err.status_code(), 500);
    assert_eq!(err.client_message(), "Internal server error");
    let err = add_tag(&mut store, 1, "g", &AddTagRequest { name: "n".to_string(), color: 1 }, NOW).unwrap_err();
    assert_eq!(err.kind(), ErrorKind::Internal);
    assert_eq!(get_peers(&mut store, 1, &all_peers("g"), NOW).unwrap().total, 0);
    assert_eq!(get_tags(&mut store, 1, "g", NOW).unwrap().total, 0);
    assert_eq!(store.snapshot().peers.len(), 1);
}

#[test]
fn page_bounds_follow_offset_and_limit() {
    assert_eq!(page_bounds(10, 1, 3), (0, 3));
    assert_eq!(page_bounds(10, 2, 3), (3, 6));
    assert_eq!(page_bounds(10, 4, 3), (9, 10));
    assert_eq!(page_bounds(10, 5, 3), (10, 10));
    assert_eq!(page_bounds(10, 0, 3), (0, 3));
    assert_eq!(page_bounds(10, -7, 3), (0, 3));
    assert_eq!(page_bounds(10, 3, 0), (0, 0));
    assert_eq!(page_bounds(10, 3, -1), (0, 10));
    assert_eq!(page_bounds(0, 1, 100), (0, 0));
    assert_eq!(page_bounds(10, i64::MAX, i64::MAX), (10, 10));
    assert_eq!(page_bounds(10, 1, i64::MAX), (0, 10));
    assert_eq!(total_of(0), 0);
    assert_eq!(total_of(17), 17);
}

#[test]
fn new_rows_get_the_next_id_and_the_time_given() {
    let mut store = Store::new();
    let g = resolve_ab_guid(&mut store, 1, "", NOW).unwrap();
    add_peer(&mut store, 1, &g, &peer("a", &[]), "t1").unwrap();
    add_peer(&mut store, 1, &g, &peer("b", &[]), "t2").unwrap();
    add_peer(&mut store, 1, &g, &peer("a", &[]), "t3").unwrap();
    let rows = store.snapshot().peers;
    assert_eq!(rows.iter().map(|p| p.id).collect::<Vec<_>>(), vec![1, 2]);
    assert_eq!(rows[0].created_at, "t1");
    assert_eq!(rows[0].updated_at, "t3");
    assert_eq!(rows[1].created_at, "t2");
    assert_eq!(rows[1].updated_at, "t2");
    delete_peers(&mut store, 1, &g, &DeletePeersRequest { ids: vec!["b".to_string()], id: None }, NOW).unwrap();
    add_peer(&mut store, 1, &g, &peer("c", &[]), "t4").unwrap();
    assert_eq!(store.snapshot().peers.iter().map(|p| p.id).collect::<Vec<_>>(), vec![1, 2]);
}
