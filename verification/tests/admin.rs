use rustdesk_ab::auth::{require_admin, Claims};
use rustdesk_ab::config::{
    default_admin_password, default_admin_username, default_db_path, default_port,
    default_token_expiry_hours, Config, Overrides,
};
use rustdesk_ab::error::{ApiError, ErrorKind};
use rustdesk_ab::groups::{create_group, delete_group, list_groups, update_group};
use rustdesk_ab::models::group::{CreateGroupRequest, GroupPatch};
use rustdesk_ab::models::peer::default_page_size;
use rustdesk_ab::models::tag::default_color;
use rustdesk_ab::models::user::{CreateUserRequest, UserPatch};
use rustdesk_ab::store::Store;
use rustdesk_ab::users::{
    create_user, current_user, delete_user, finish_login, list_users, login_candidate, update_user,
};

const NOW: &str = "2024-05-01 12:00:00";

fn claims(user_id: i64, is_admin: bool) -> Claims {
    Claims { sub: "root".to_string(), user_id, is_admin, exp: 0, iat: 0 }
}

fn new_user(name: &str) -> CreateUserRequest {
    CreateUserRequest {
        username: name.to_string(),
        password: "secret".to_string(),
        name: String::new(),
        email: format!("{}@example.org", name),
        is_admin: false,
    }
}

fn no_patch() -> UserPatch {
    UserPatch { name: None, email: None, is_admin: None, status: None, password_hash: None }
}

#[test]
fn defaults_are_as_documented() {
    assert_eq!(default_port(), 21114);
    assert_eq!(default_db_path(), "data/db.sqlite3");
    assert_eq!(default_admin_username(), "admin");
    assert_eq!(default_admin_password(), "admin");
    assert_eq!(default_token_expiry_hours(), 168);
    assert_eq!(default_color(), 4278190080);
    assert_eq!(default_color(), 0xFF000000);
    assert_eq!(default_page_size(), 100);
}

#[test]
fn default_config_draws_a_secret_of_64_letters_and_digits() {
    let a = Config::defaults();
    let b = Config::defaults();
    assert_eq!(a.port, 21114);
    assert_eq!(a.jwt_secret.len(), 64);
    assert!(a.jwt_secret.chars().all(|c| c.is_ascii_alphanumeric()));
    assert_ne!(a.jwt_secret, b.jwt_secret);
}

#[test]
fn environment_wins_over_the_file() {
    let base = Config::with_secret("s".to_string());
    let env = Overrides {
        port: Some(8080),
        db_path: None,
        jwt_secret: Some("from-env".to_string()),
        admin_username: None,
        admin_password: Some("pw".to_string()),
    };
    let c = base.overridden(env);
    assert_eq!(c.port, 8080);
    assert_eq!(c.db_path, "data/db.sqlite3");
    assert_eq!(c.jwt_secret, "from-env");
    assert_eq!(c.admin_username, "admin");
    assert_eq!(c.admin_password, "pw");
    assert_eq!(c.token_expiry_hours, 168);
}

#[test]
fn only_an_admin_passes() {
    assert!(require_admin(&claims(1, true)).is_ok());
    let err = require_admin(&claims(1, false)).unwrap_err();
    assert_eq!(err, ApiError::Forbidden("Admin access required".to_string()));
}

#[test]
fn claims_end_after_the_hours_given() {
    let c = Claims::issue("alice", 7, true, 1_700_000_000, 168).unwrap();
    assert_eq!(c.sub, "alice");
    assert_eq!(c.user_id, 7);
    assert!(c.is_admin);
    assert_eq!(c.iat, 1_700_000_000);
    assert_eq!(c.exp, 1_700_000_000 + 168 * 3600);
    assert!(Claims::issue("alice", 7, true, 1, u64::MAX).is_none());
    assert!(Claims::issue("alice", 7, true, u64::MAX, 1).is_none());
}

#[test]
fn errors_map_to_statuses_and_hide_internal_detail() {
    let cases = [
        (ApiError::BadRequest("m".to_string()), 400, "m", "Bad request: m"),
        (ApiError::Unauthorized("m".to_string()), 401, "m", "Unauthorized: m"),
        (ApiError::Forbidden("m".to_string()), 403, "m", "Forbidden: m"),
        (ApiError::NotFound("m".to_string()), 404, "m", "Not found: m"),
        (ApiError::Conflict("m".to_string()), 409, "m", "Conflict: m"),
        (ApiError::Internal("disk on fire".to_string()), 500, "Internal server error", "Internal error: disk on fire"),
    ];
    for (err, status, shown, described) in cases {
        assert_eq!(err.status_code(), status);
        assert_eq!(err.client_message(), shown);
        assert_eq!(err.describe(), described);
    }
}

#[test]
fn users_are_created_listed_patched_and_deleted() {
    let mut store = Store::new();
    let admin = claims(1, true);
    create_user(&mut store, &admin, &new_user("alice"), "hash-a".to_string(), NOW).unwrap();
    create_user(&mut store, &admin, &new_user("bob"), "hash-b".to_string(), NOW).unwrap();
    let clash = create_user(&mut store, &admin, &new_user("alice"), "h".to_string(), NOW).unwrap_err();
    assert_eq!(clash, ApiError::Conflict("Username 'alice' already exists".to_string()));
    let refused = create_user(&mut store, &claims(2, false), &new_user("eve"), "h".to_string(), NOW).unwrap_err();
    assert_eq!(refused.kind(), ErrorKind::Forbidden);

    let users = list_users(&store, &admin).unwrap();
    assert_eq!(users.iter().map(|u| (u.id, u.username.as_str())).collect::<Vec<_>>(), vec![(1, "alice"), (2, "bob")]);
    assert_eq!(users[0].status, 1);
    assert_eq!(users[0].created_at, NOW);
    assert!(list_users(&store, &claims(2, false)).is_err());

    let patch = UserPatch { name: Some("Bob B.".to_string()), status: Some(0), ..no_patch() };
    update_user(&mut store, &admin, 2, &patch, "later").unwrap();
    update_user(&mut store, &admin, 77, &patch, "later").unwrap();
    update_user(&mut store, &admin, 1, &no_patch(), "later").unwrap();
    let users = list_users(&store, &admin).unwrap();
    assert_eq!(users[1].name, "Bob B.");
    assert_eq!(users[1].status, 0);
    assert_eq!(users[1].email, "bob@example.org");
    assert_eq!(users[0].name, "");
    let rows = store.snapshot().users;
    assert_eq!(rows[1].updated_at, "later");
    assert_eq!(rows[0].updated_at, NOW);
    assert_eq!(rows[1].password_hash, "hash-b");

    let myself = delete_user(&mut store, &admin, 1).unwrap_err();
    assert_eq!(myself, ApiError::BadRequest("Cannot delete yourself".to_string()));
    delete_user(&mut store, &admin, 2).unwrap();
    delete_user(&mut store, &admin, 2).unwrap();
    assert_eq!(list_users(&store, &admin).unwrap().len(), 1);
    create_user(&mut store, &admin, &new_user("carol"), "h".to_string(), NOW).unwrap();
    assert_eq!(list_users(&store, &admin).unwrap()[1].id, 2);
}

#[test]
fn login_is_refused_in_the_same_words() {
    let mut store = Store::new();
    let admin = claims(1, true);
    create_user(&mut store, &admin, &new_user("alice"), "hash-a".to_string(), NOW).unwrap();
    create_user(&mut store, &admin, &new_user("bob"), "hash-b".to_string(), NOW).unwrap();
    update_user(&mut store, &admin, 2, &UserPatch { status: Some(0), ..no_patch() }, NOW).unwrap();
    let unknown = login_candidate(&store, "nobody").unwrap_err();
    let disabled = login_candidate(&store, "bob").unwrap_err();
    let alice = login_candidate(&store, "alice").unwrap();
    let wrong = finish_login(&alice, None).unwrap_err();
    assert_eq!(unknown, ApiError::Unauthorized("Invalid username or password".to_string()));
    assert_eq!(unknown, disabled);
    assert_eq!(unknown, wrong);
    assert_eq!(alice.password_hash, "hash-a");
    let ok = finish_login(&alice, Some("tok".to_string())).unwrap();
    assert_eq!(ok.access_token, "tok");
    assert_eq!(ok.token_type, "access_token");
    assert_eq!(ok.user.name, "alice");
    assert_eq!(ok.user.email, "alice@example.org");
    update_user(&mut store, &admin, 1, &UserPatch { name: Some("Alice A.".to_string()), ..no_patch() }, NOW).unwrap();
    assert_eq!(current_user(&store, &claims(1, false)).unwrap().name, "Alice A.");
    let gone = current_user(&store, &claims(9, false)).unwrap_err();
    assert_eq!(gone, ApiError::NotFound("User not found".to_string()));
}

#[test]
fn groups_are_created_listed_patched_and_deleted() {
    let mut store = Store::new();
    let admin = claims(1, true);
    let req = |name: &str| CreateGroupRequest { name: name.to_string(), note: "n".to_string() };
    create_group(&mut store, &admin, &req("ops"), NOW).unwrap();
    create_group(&mut store, &admin, &req("dev"), NOW).unwrap();
    let clash = create_group(&mut store, &admin, &req("ops"), NOW).unwrap_err();
    assert_eq!(clash, ApiError::Conflict("Group 'ops' already exists".to_string()));
    assert!(create_group(&mut store, &claims(2, false), &req("x"), NOW).is_err());

    let taken = update_group(&mut store, &admin, 2, &GroupPatch { name: Some("ops".to_string()), note: None });
    assert_eq!(taken.unwrap_err().kind(), ErrorKind::Conflict);
    update_group(&mut store, &admin, 2, &GroupPatch { name: Some("dev".to_string()), note: Some("same".to_string()) }).unwrap();
    update_group(&mut store, &admin, 1, &GroupPatch { name: Some("sre".to_string()), note: None }).unwrap();
    update_group(&mut store, &admin, 42, &GroupPatch { name: Some("ops".to_string()), note: None }).unwrap();
    let groups = list_groups(&store, &admin).unwrap();
    assert_eq!(groups.iter().map(|g| (g.id, g.name.as_str(), g.note.as_str())).collect::<Vec<_>>(), vec![(1, "sre", "n"), (2, "dev", "same")]);

    delete_group(&mut store, &admin, 1).unwrap();
    delete_group(&mut store, &admin, 1).unwrap();
    assert_eq!(list_groups(&store, &admin).unwrap().len(), 1);
    assert!(delete_group(&mut store, &claims(2, false), 2).is_err());
}
