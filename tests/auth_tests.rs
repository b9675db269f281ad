use shared::error::Error;
use shared::principal::CurrentUser;
use shared::role::{Permission, Role};
use shared::token::JwtService;
use shared::user::DbUser;
use time::OffsetDateTime;

fn db_user() -> DbUser {
    DbUser {
        id: 0x25770f6b869e487087c8ecd5c24395e0,
        username: "alice".to_string(),
        email: "alice@example.com".to_string(),
        password_hash: "hashed_pw".to_string(),
        is_deleted: false,
        internal_notes: None,
        created_at: OffsetDateTime::UNIX_EPOCH,
        updated_at: OffsetDateTime::UNIX_EPOCH,
    }
}

fn user_with(roles: &[&str]) -> CurrentUser {
    CurrentUser::from_user_with_roles(db_user(), roles.iter().map(|s| s.to_string()).collect())
}

const ALL_PERMISSIONS: [Permission; 13] = [
    Permission::CreateUser,
    Permission::ReadUser,
    Permission::UpdateUser,
    Permission::DeleteUser,
    Permission::ManageRoles,
    Permission::CreatePost,
    Permission::ReadPost,
    Permission::UpdatePost,
    Permission::UpdateOwnPost,
    Permission::DeletePost,
    Permission::DeleteOwnPost,
    Permission::ViewAuditLog,
    Permission::ManageSystem,
];

#[test]
fn role_table_rows() {
    assert_eq!(
        Role::Admin.permissions(),
        vec![
            Permission::CreateUser,
            Permission::DeleteUser,
            Permission::UpdateUser,
            Permission::ReadUser,
            Permission::ManageRoles
        ]
    );
    assert_eq!(
        Role::Moderator.permissions(),
        vec![Permission::UpdateUser, Permission::ReadUser, Permission::CreatePost, Permission::DeletePost]
    );
    assert_eq!(Role::Guest.permissions(), vec![Permission::ReadUser]);
}

#[test]
fn user_role_derives_exact_set() {
    let u = user_with(&["User"]);
    let mut got = u.permissions.clone();
    got.sort_by_key(|p| p.name());
    let mut want = vec![Permission::ReadUser, Permission::CreatePost, Permission::UpdateOwnPost];
    want.sort_by_key(|p| p.name());
    assert_eq!(got, want);
}

#[test]
fn derivation_is_union_without_duplicates() {
    let u = user_with(&["Admin", "Moderator"]);
    assert_eq!(u.permissions.len(), 7);
    for p in ALL_PERMISSIONS {
        let granted = Role::Admin.permissions().contains(&p) || Role::Moderator.permissions().contains(&p);
        assert_eq!(u.has_permission(&p), granted);
    }
    assert!(CurrentUser::calculate_permissions(&vec![]).is_empty());
}

#[test]
fn unknown_role_names_are_dropped() {
    let u = user_with(&["Guest", "Superuser", "admin", "Moderator"]);
    assert_eq!(u.roles, vec![Role::Guest, Role::Moderator]);
    assert_eq!(u.username, "alice");
    assert_eq!(u.id, 0x25770f6b869e487087c8ecd5c24395e0);
}

#[test]
fn require_permission_matches_table_for_every_pair() {
    for (name, role) in [("Admin", Role::Admin), ("Moderator", Role::Moderator), ("User", Role::User), ("Guest", Role::Guest)] {
        let u = user_with(&[name]);
        for p in ALL_PERMISSIONS {
            let r = u.require_permission(&p);
            if role.permissions().contains(&p) {
                assert!(r.is_ok());
            } else {
                match r {
                    Err(Error::Forbidden(msg)) => assert_eq!(msg, format!("Required permission: {}", p.name())),
                    _ => panic!("expected Forbidden"),
                }
            }
        }
    }
}

#[test]
fn require_role_and_admin_check() {
    let u = user_with(&["User"]);
    assert!(u.require_role(&Role::User).is_ok());
    match u.require_role(&Role::Admin) {
        Err(Error::Forbidden(msg)) => assert_eq!(msg, "Required role: Admin"),
        _ => panic!("expected Forbidden"),
    }
    assert!(!u.is_admin());
    assert!(user_with(&["Admin"]).is_admin());
    assert!(u.has_role(&Role::User));
}

#[test]
fn principal_from_lookup() {
    assert!(matches!(CurrentUser::from_lookup(None), Err(Error::NotFound(m)) if m == "User not found"));
    let u = CurrentUser::from_lookup(Some((db_user(), vec!["Guest".to_string()]))).ok().unwrap();
    assert_eq!(u.permissions, vec![Permission::ReadUser]);
}

#[test]
fn permission_texts() {
    assert_eq!(Permission::CreateUser.description(), "Create new users");
    assert_eq!(Permission::ManageSystem.description(), "Mange system settings");
    assert_eq!(Permission::DeleteOwnPost.name(), "DeleteOwnPost");
    assert_eq!(Role::Moderator.name(), "Moderator");
    assert_eq!(Role::from_name("Moderator"), Some(Role::Moderator));
    assert_eq!(Role::from_name("Root"), None);
}

#[test]
fn token_round_trip() {
    let t = JwtService::generate_token("25770f6b-869e-4870-87c8-ecd5c24395e0");
    assert_eq!(t, "fake_jwt_token_25770f6b-869e-4870-87c8-ecd5c24395e0");
    assert_eq!(JwtService::verify_token(&t).ok().unwrap(), "25770f6b-869e-4870-87c8-ecd5c24395e0");
}

#[test]
fn token_verification_removes_every_marker() {
    assert_eq!(JwtService::verify_token("fake_jwt_token_a_fake_jwt_token_b").ok().unwrap(), "a_b");
    assert_eq!(JwtService::verify_token("fake_jwt_token_").ok().unwrap(), "");
}

#[test]
fn invalid_token_is_unauthorized() {
    match JwtService::verify_token("bogus") {
        Err(Error::Unauthorized(m)) => assert_eq!(m, "Invalid token"),
        _ => panic!("expected Unauthorized"),
    }
}

#[test]
fn authorization_header_handling() {
    assert!(matches!(JwtService::subject_from_authorization(None), Ok(None)));
    assert!(matches!(JwtService::subject_from_authorization(Some("Basic abc")), Ok(None)));
    assert!(matches!(
        JwtService::subject_from_authorization(Some("Bearer nope")),
        Err(Error::Unauthorized(_))
    ));
    assert_eq!(
        JwtService::subject_from_authorization(Some("Bearer fake_jwt_token_42")).ok().unwrap(),
        Some("42".to_string())
    );
}
