use shared::error::Error;
use shared::text::{parse_i64, replace_str, str_lt, trim_suffix_str, prefix_before_str};
use shared::user::{parse_user_id, parse_user_ids, password_hash, DbUser, GraphQLUser, RestUser, UserProfile};
use time::OffsetDateTime;

fn db_user() -> DbUser {
    DbUser {
        id: 0xa1a2a3a4b1b2c1c2d1d2d3d4d5d6d7d8,
        username: "bob".to_string(),
        email: "bob@example.com".to_string(),
        password_hash: "hashed_x".to_string(),
        is_deleted: false,
        internal_notes: Some("note".to_string()),
        created_at: OffsetDateTime::UNIX_EPOCH,
        updated_at: OffsetDateTime::UNIX_EPOCH,
    }
}

#[test]
fn rest_user_shows_hyphenated_id() {
    let r = RestUser::from_profile(UserProfile::from_db_user(db_user()));
    assert_eq!(r.id, "a1a2a3a4-b1b2-c1c2-d1d2-d3d4d5d6d7d8");
    assert_eq!(r.username, "bob");
}

#[test]
fn graphql_user_fields() {
    let g = GraphQLUser::from_profile(UserProfile::from_db_user(db_user()));
    assert_eq!(g.id, "a1a2a3a4-b1b2-c1c2-d1d2-d3d4d5d6d7d8");
    assert_eq!(g.profile_id(), "profile_a1a2a3a4-b1b2-c1c2-d1d2-d3d4d5d6d7d8");
    assert_eq!(g.display_name(), "@bob");
    assert_eq!(g.email, "bob@example.com");
}

#[test]
fn profile_lookup() {
    assert!(matches!(UserProfile::from_lookup(None), Err(Error::NotFound(_))));
    let p = UserProfile::from_lookup(Some(db_user())).ok().unwrap();
    assert_eq!(p.id, 0xa1a2a3a4b1b2c1c2d1d2d3d4d5d6d7d8);
}

#[test]
fn user_ids_parse() {
    assert_eq!(
        parse_user_id("a1a2a3a4-b1b2-c1c2-d1d2-d3d4d5d6d7d8"),
        Some(0xa1a2a3a4b1b2c1c2d1d2d3d4d5d6d7d8)
    );
    assert_eq!(parse_user_id("not-a-uuid"), None);
    let ids = vec![
        "x".to_string(),
        "a1a2a3a4b1b2c1c2d1d2d3d4d5d6d7d8".to_string(),
        "00000000-0000-0000-0000-000000000001".to_string(),
    ];
    assert_eq!(parse_user_ids(&ids), vec![0xa1a2a3a4b1b2c1c2d1d2d3d4d5d6d7d8, 1]);
    assert!(parse_user_ids(&vec!["".to_string()]).is_empty());
}

#[test]
fn placeholder_password_hash() {
    assert_eq!(password_hash("secret"), "hashed_secret");
}

#[test]
fn error_statuses_and_messages() {
    let cases = vec![
        (Error::Unauthorized("u".to_string()), 401, "u", "Unauthorized: u"),
        (Error::Forbidden("f".to_string()), 401, "f", "Forbidden: f"),
        (Error::NotFound("n".to_string()), 404, "n", "Not found: n"),
        (Error::Database("d".to_string()), 500, "Internal server error", "Database error: d"),
        (Error::Validation("v".to_string()), 400, "v", "Validation error: v"),
        (Error::Io("i".to_string()), 500, "Internal server error", "IO error: i"),
        (Error::Server("s".to_string()), 404, "s", "Server error: s"),
        (Error::InvalidInput("x".to_string()), 400, "x", "Invalid Input error: x"),
    ];
    for (e, status, shown, full) in cases {
        assert_eq!(e.status_code(), status);
        assert_eq!(e.response_message(), shown);
        assert_eq!(e.message(), full);
    }
}

#[test]
fn text_primitives() {
    assert_eq!(replace_str("a.up.sql.up.sql", ".up.sql", ".down.sql"), "a.down.sql.down.sql");
    assert_eq!(replace_str("aaa", "aa", "b"), "ba");
    assert_eq!(trim_suffix_str("x.sql.sql", ".sql"), "x");
    assert_eq!(prefix_before_str("12_ab_c", '_'), "12");
    assert_eq!(prefix_before_str("12", '_'), "12");
    assert_eq!(parse_i64("-0"), Some(0));
    assert_eq!(parse_i64("+"), None);
    assert!(str_lt("10_a", "2_b"));
    assert!(!str_lt("b", "a"));
    assert!(str_lt("ab", "abc"));
    assert!(!str_lt("abc", "abc"));
}
