use rustdesk_ab::auth::{bearer_token, AuthUser, Claims};
use rustdesk_ab::error::ApiError;
use rustdesk_ab::frontend::{asset_path, serve_frontend, FrontendReply};
use rustdesk_ab::migrations::{
    is_migration, is_space, migrations_in_order, split_semicolons, statements, trim, without_empty,
};
use rustdesk_ab::models::device::{AuditRequest, HeartbeatRequest, SysinfoRequest};
use rustdesk_ab::system::{audit_subject, heartbeat_is_kept, sysinfo_is_kept};
use rustdesk_ab::text::{text_before, text_eq};

#[test]
fn the_token_stands_behind_the_word_bearer() {
    assert_eq!(bearer_token(Some("Bearer abc.def")).unwrap(), "abc.def");
    assert_eq!(bearer_token(Some("Bearer ")).unwrap(), "");
    assert_eq!(bearer_token(Some("Bearer \u{e9}x")).unwrap(), "\u{e9}x");
    let missing = bearer_token(None).unwrap_err();
    assert_eq!(missing, ApiError::Unauthorized("Missing authorization header".to_string()));
    for bad in ["", "Bearer", "bearer abc", "Basic abc", " Bearer abc"] {
        let err = bearer_token(Some(bad)).unwrap_err();
        assert_eq!(err, ApiError::Unauthorized("Invalid authorization format".to_string()));
    }
}

#[test]
fn a_token_that_was_not_accepted_is_refused() {
    let err = AuthUser::accept(None).unwrap_err();
    assert_eq!(err, ApiError::Unauthorized("Invalid or expired token".to_string()));
    assert_eq!(err.status_code(), 401);
    let claims = Claims { sub: "a".to_string(), user_id: 3, is_admin: false, exp: 9, iat: 1 };
    let user = AuthUser::accept(Some(Claims { sub: "a".to_string(), user_id: 3, is_admin: false, exp: 9, iat: 1 })).unwrap();
    assert_eq!(user.0, claims);
}

#[test]
fn paths_lose_their_leading_slashes() {
    assert_eq!(asset_path("/assets/app.js"), "assets/app.js");
    assert_eq!(asset_path("///x/"), "x/");
    assert_eq!(asset_path("/"), "");
    assert_eq!(asset_path(""), "");
    assert_eq!(asset_path("plain"), "plain");
}

#[test]
fn files_get_a_content_type_and_other_paths_the_entry_page() {
    let page = b"<html></html>".to_vec();
    let reply = serve_frontend("index.html", Some(page.clone()), Some(page.clone()));
    assert_eq!(reply, FrontendReply::File { content_type: "text/html".to_string(), body: page.clone() });
    match serve_frontend("logo.png", Some(vec![1, 2]), None) {
        FrontendReply::File { content_type, body } => {
            assert_eq!(content_type, "image/png");
            assert_eq!(body, vec![1, 2]);
        }
        other => panic!("unexpected reply {:?}", other),
    }
    match serve_frontend("blob.no-such-extension", Some(vec![]), None) {
        FrontendReply::File { content_type, .. } => assert_eq!(content_type, "application/octet-stream"),
        other => panic!("unexpected reply {:?}", other),
    }
    assert_eq!(serve_frontend("peers/7", None, Some(page.clone())), FrontendReply::EntryPage { body: page });
    assert_eq!(serve_frontend("peers/7", None, None), FrontendReply::NotBuilt);
}

#[test]
fn migrations_run_in_order_of_their_names() {
    assert!(is_migration("001_init.sql"));
    assert!(is_migration("a.b.sql"));
    assert!(!is_migration(".sql"));
    assert!(!is_migration("notes.txt"));
    assert!(!is_migration("sql"));
    assert!(!is_migration("x.SQL"));
    let names: Vec<String> =
        ["010_b.sql", "README.md", "002_a.sql", ".sql", "001_init.sql"].iter().map(|s| s.to_string()).collect();
    assert_eq!(migrations_in_order(&names, &vec![]), vec!["001_init.sql", "002_a.sql", "010_b.sql"]);
    let applied = vec!["002_a.sql".to_string(), "README.md".to_string(), "999_gone.sql".to_string()];
    assert_eq!(migrations_in_order(&names, &applied), vec!["001_init.sql", "010_b.sql"]);
    assert!(migrations_in_order(&names, &names).is_empty());
    assert!(migrations_in_order(&vec![], &applied).is_empty());
}

#[test]
fn a_migration_falls_into_trimmed_statements() {
    let sql = "  CREATE TABLE a (x);\n\nCREATE TABLE b (y) ;;\n \t ";
    assert_eq!(statements(sql), vec!["CREATE TABLE a (x)", "CREATE TABLE b (y)"]);
    assert_eq!(statements("SELECT 1"), vec!["SELECT 1"]);
    assert!(statements("").is_empty());
    assert!(statements(" ; ;").is_empty());
    assert_eq!(split_semicolons("a;b;"), vec!["a", "b", ""]);
    assert_eq!(split_semicolons(";"), vec!["", ""]);
    assert_eq!(split_semicolons(""), vec![""]);
    assert_eq!(split_semicolons("no end"), vec!["no end"]);
    let pieces = vec!["".to_string(), "x".to_string(), " ".to_string(), "".to_string()];
    assert_eq!(without_empty(pieces), vec!["x", " "]);
}

#[test]
fn reports_are_kept_by_the_client_they_name() {
    let audit = |id: &str, rustdesk_id: &str| AuditRequest {
        action: "conn".to_string(),
        id: id.to_string(),
        rustdesk_id: rustdesk_id.to_string(),
        peer_id: String::new(),
        ip: String::new(),
        note: String::new(),
    };
    assert_eq!(audit_subject(&audit("a", "")), "a");
    assert_eq!(audit_subject(&audit("a", "b")), "b");
    let beat = |id: &str| HeartbeatRequest { id: id.to_string(), uuid: String::new(), modified_at: 0, ver: 0 };
    assert!(heartbeat_is_kept(&beat("x")));
    assert!(!heartbeat_is_kept(&beat("")));
    let info = |id: &str| SysinfoRequest {
        id: id.to_string(),
        uuid: String::new(),
        hostname: String::new(),
        platform: String::new(),
        os: String::new(),
        cpu: String::new(),
        memory: String::new(),
        version: String::new(),
    };
    assert!(sysinfo_is_kept(&info("x")));
    assert!(!sysinfo_is_kept(&info("")));
}

#[test]
fn text_is_ordered_by_its_bytes() {
    assert!(text_before("a", "b"));
    assert!(text_before("", "a"));
    assert!(text_before("a", "aa"));
    assert!(text_before("Z", "a"));
    assert!(text_before("z", "\u{e9}"));
    assert!(!text_before("b", "a"));
    assert!(!text_before("a", "a"));
    assert!(!text_before("", ""));
    for (a, b) in [("abc", "abd"), ("a", "\u{10000}"), ("\u{ffff}", "\u{10000}"), ("x", "x")] {
        assert_eq!(text_before(a, b), a < b);
        assert_eq!(text_eq(a, b), a == b);
    }
    assert!(text_eq("same", "same"));
    assert!(!text_eq("same", "sama"));
    assert!(!text_eq("a", "ab"));
}

#[test]
fn white_space_is_what_the_standard_library_trims() {
    for code in 0..=0x10ffffu32 {
        if let Some(c) = char::from_u32(code) {
            assert_eq!(is_space(c), c.is_whitespace(), "U+{:04X}", code);
        }
    }
    for text in ["", " ", "x", "  a b  ", "\t\n x \r\n", "\u{a0}\u{3000}x y\u{2028}\u{85}", " \u{200b} ", "\u{feff}x"] {
        assert_eq!(trim(text), text.trim());
    }
    assert_eq!(trim("  a b  "), "a b");
    assert_eq!(trim(" \u{200b} "), "\u{200b}");
}
