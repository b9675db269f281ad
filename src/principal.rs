use vstd::prelude::*;
use vstd::string::*;
use time::OffsetDateTime;
use crate::error::Error;
use crate::role::{derived_permissions, granted_by, permission_name, role_name, role_permissions, Permission, Role};
use crate::text::{concat_str, str_eq};
use crate::user::DbUser;

verus! {

/// The role that a stored role name denotes; other names denote none.
pub open spec fn role_from_name(name: Seq<char>) -> Option<Role> {
    if name == role_name(Role::Admin) {
        Some(Role::Admin)
    } else if name == role_name(Role::Moderator) {
        Some(Role::Moderator)
    } else if name == role_name(Role::User) {
        Some(Role::User)
    } else if name == role_name(Role::Guest) {
        Some(Role::Guest)
    } else {
        None
    }
}

/// The roles that `names` denote, in order; unrecognized names are dropped.
pub open spec fn roles_from_names(names: Seq<String>) -> Seq<Role>
    decreases names.len(),
{
    if names.len() == 0 {
        Seq::empty()
    } else {
        let rest = roles_from_names(names.drop_last());
        match role_from_name(names.last()@) {
            Some(r) => rest.push(r),
            None => rest,
        }
    }
}

impl Role {
    /// The role that a stored role name denotes, if any.
    pub fn from_name(name: &str) -> (r: Option<Role>)
        ensures
            r == role_from_name(name@),
    {
        if str_eq(name, Role::Admin.name()) {
            Some(Role::Admin)
        } else if str_eq(name, Role::Moderator.name()) {
            Some(Role::Moderator)
        } else if str_eq(name, Role::User.name()) {
            Some(Role::User)
        } else if str_eq(name, Role::Guest.name()) {
            Some(Role::Guest)
        } else {
            None
        }
    }
}

/// The authenticated actor of a request, with its roles and the permissions
/// derived from them when it was built.
pub struct CurrentUser {
    pub id: u128,
    pub username: String,
    pub email: String,
    pub created_at: OffsetDateTime,
    pub updated_at: OffsetDateTime,
    pub roles: Vec<Role>,
    pub permissions: Vec<Permission>,
}

impl CurrentUser {
    /// The permission list is the union of what the roles grant, each permission once.
    pub open spec fn wf(&self) -> bool {
        &&& self.permissions@.to_set() == derived_permissions(self.roles@)
        &&& self.permissions@.no_duplicates()
    }

    /// The union of the permissions that `roles` grant, each listed once.
    pub fn calculate_permissions(roles: &Vec<Role>) -> (r: Vec<Permission>)
        ensures
            r@.to_set() == derived_permissions(roles@),
            r@.no_duplicates(),
    {
        let mut out: Vec<Permission> = Vec::new();
        let mut i: usize = 0;
        while i < roles.len()
            invariant
                i <= roles.len(),
                out@.no_duplicates(),
                forall|p: Permission|
                    out@.contains(p) <==> granted_by(roles@.subrange(0, i as int), p),
            decreases roles.len() - i,
        {
            let perms = roles[i].permissions();
            let mut j: usize = 0;
            while j < perms.len()
                invariant
                    i < roles.len(),
                    j <= perms.len(),
                    perms@ == role_permissions(roles@[i as int]),
                    out@.no_duplicates(),
                    forall|p: Permission|
                        out@.contains(p) <==> (granted_by(roles@.subrange(0, i as int), p)
                            || perms@.subrange(0, j as int).contains(p)),
                decreases perms.len() - j,
            {
                let p = perms[j];
                let mut present = false;
                let mut k: usize = 0;
                while k < out.len()
                    invariant
                        k <= out.len(),
                        present == exists|q: int| 0 <= q < k && out@[q] == p,
                    decreases out.len() - k,
                {
                    if out[k] == p {
                        present = true;
                    }
                    k = k + 1;
                }
                let ghost before = out@;
                if !present {
                    out.push(p);
                }
                proof {
                    let pj = perms@.subrange(0, j as int);
                    let pj1 = perms@.subrange(0, j + 1);
                    assert(pj1 =~= pj.push(p));
                    assert(present == before.contains(p)) by {
                        if before.contains(p) {
                            let w = choose|w: int| 0 <= w < before.len() && before[w] == p;
                        }
                    }
                    assert forall|q: Permission| #[trigger] out@.contains(q) <==> (before.contains(q)
                        || q == p) by {
                        if out@.contains(q) {
                            let w = choose|w: int| 0 <= w < out@.len() && out@[w] == q;
                            if w < before.len() {
                                assert(before[w] == q);
                            }
                        }
                        if before.contains(q) {
                            let w = choose|w: int| 0 <= w < before.len() && before[w] == q;
                            assert(out@[w] == q);
                        }
                        if q == p && !present {
                            assert(out@[out@.len() - 1] == p);
                        }
                    }
                    assert forall|q: Permission| #[trigger] pj1.contains(q) <==> (pj.contains(q)
                        || q == p) by {
                        if pj1.contains(q) {
                            let w = choose|w: int| 0 <= w < pj1.len() && pj1[w] == q;
                            if w < pj.len() {
                                assert(pj[w] == q);
                            }
                        }
                        if pj.contains(q) {
                            let w = choose|w: int| 0 <= w < pj.len() && pj[w] == q;
                            assert(pj1[w] == q);
                        }
                        if q == p {
                            assert(pj1[j as int] == p);
                        }
                    }
                }
                j = j + 1;
            }
            proof {
                assert(perms@.subrange(0, perms.len() as int) =~= perms@);
                assert forall|p: Permission|
                    granted_by(roles@.subrange(0, i + 1), p) <==> (granted_by(
                        roles@.subrange(0, i as int),
                        p,
                    ) || role_permissions(roles@[i as int]).contains(p)) by {
                    let s1 = roles@.subrange(0, i + 1);
                    let s0 = roles@.subrange(0, i as int);
                    if granted_by(s1, p) {
                        let w = choose|w: int|
                            0 <= w < s1.len() && role_permissions(#[trigger] s1[w]).contains(p);
                        if w < i {
                            assert(s0[w] == s1[w]);
                        }
                    }
                    if granted_by(s0, p) {
                        let w = choose|w: int|
                            0 <= w < s0.len() && role_permissions(#[trigger] s0[w]).contains(p);
                        assert(s1[w] == s0[w]);
                    }
                    if role_permissions(roles@[i as int]).contains(p) {
                        assert(s1[i as int] == roles@[i as int]);
                    }
                }
            }
            i = i + 1;
        }
        assert(roles@.subrange(0, roles.len() as int) =~= roles@);
        assert(out@.to_set() =~= derived_permissions(roles@));
        out
    }

    /// A principal built from a stored account and its role names: names that
    /// denote no role are dropped, and the permissions are derived from the roles.
    pub fn from_user_with_roles(db_user: DbUser, role_names: Vec<String>) -> (r: CurrentUser)
        ensures
            r.wf(),
            r.roles@ == roles_from_names(role_names@),
            r.id == db_user.id,
            r.username == db_user.username,
            r.email == db_user.email,
            r.created_at == db_user.created_at,
            r.updated_at == db_user.updated_at,
    {
        let mut roles: Vec<Role> = Vec::new();
        let mut i: usize = 0;
        while i < role_names.len()
            invariant
                i <= role_names.len(),
                roles@ == roles_from_names(role_names@.subrange(0, i as int)),
            decreases role_names.len() - i,
        {
            proof {
                assert(role_names@.subrange(0, i + 1).drop_last() =~= role_names@.subrange(
                    0,
                    i as int,
                ));
            }
            match Role::from_name(role_names[i].as_str()) {
                Some(r) => roles.push(r),
                None => {},
            }
            i = i + 1;
        }
        assert(role_names@.subrange(0, role_names.len() as int) =~= role_names@);
        let permissions = Self::calculate_permissions(&roles);
        CurrentUser {
            id: db_user.id,
            username: db_user.username,
            email: db_user.email,
            created_at: db_user.created_at,
            updated_at: db_user.updated_at,
            roles,
            permissions,
        }
    }

    /// The principal of a looked-up account with its role names, or `NotFound`
    /// when there is no such account.
    pub fn from_lookup(found: Option<(DbUser, Vec<String>)>) -> (r: Result<CurrentUser, Error>)
        ensures
            found is None <==> r is Err,
            r is Err ==> r->Err_0 is NotFound && r->Err_0->NotFound_0@ == "User not found"@,
            found is Some ==> r is Ok && r->Ok_0.wf() && r->Ok_0.id == found->Some_0.0.id
                && r->Ok_0.roles@ == roles_from_names(found->Some_0.1@),
    {
        match found {
            Some((db_user, role_names)) => Ok(CurrentUser::from_user_with_roles(db_user, role_names)),
            None => Err(Error::NotFound(String::from_str("User not found"))),
        }
    }

    /// Whether the principal holds `role`.
    pub fn has_role(&self, role: &Role) -> (r: bool)
        ensures
            r == self.roles@.contains(*role),
    {
        let mut i: usize = 0;
        while i < self.roles.len()
            invariant
                i <= self.roles.len(),
                forall|j: int| 0 <= j < i ==> self.roles@[j] != *role,
            decreases self.roles.len() - i,
        {
            if self.roles[i] == *role {
                return true;
            }
            i = i + 1;
        }
        false
    }

    /// Whether the principal's derived permissions include `permission`.
    pub fn has_permission(&self, permission: &Permission) -> (r: bool)
        ensures
            r == self.permissions@.contains(*permission),
    {
        let mut i: usize = 0;
        while i < self.permissions.len()
            invariant
                i <= self.permissions.len(),
                forall|j: int| 0 <= j < i ==> self.permissions@[j] != *permission,
            decreases self.permissions.len() - i,
        {
            if self.permissions[i] == *permission {
                return true;
            }
            i = i + 1;
        }
        false
    }

    /// Succeeds when the principal holds `role`; otherwise `Forbidden`, naming the role.
    pub fn require_role(&self, role: &Role) -> (r: Result<(), Error>)
        ensures
            r is Ok <==> self.roles@.contains(*role),
            r is Err ==> r->Err_0 is Forbidden && r->Err_0->Forbidden_0@ == "Required role: "@
                + role_name(*role),
    {
        if self.has_role(role) {
            Ok(())
        } else {
            Err(Error::Forbidden(concat_str("Required role: ", role.name())))
        }
    }

    /// Succeeds when the principal's derived permissions include `permission`;
    /// otherwise `Forbidden`, naming the permission.
    pub fn require_permission(&self, permission: &Permission) -> (r: Result<(), Error>)
        ensures
            r is Ok <==> self.permissions@.contains(*permission),
            r is Err ==> r->Err_0 is Forbidden && r->Err_0->Forbidden_0@
                == "Required permission: "@ + permission_name(*permission),
    {
        if self.has_permission(permission) {
            Ok(())
        } else {
            Err(Error::Forbidden(concat_str("Required permission: ", permission.name())))
        }
    }

    /// Whether the principal holds the `Admin` role.
    pub fn is_admin(&self) -> (r: bool)
        ensures
            r == self.roles@.contains(Role::Admin),
    {
        self.has_role(&Role::Admin)
    }
}

/// Derivation is the union of the role table's rows: with the single role `r`,
/// the derived permissions are exactly the row of `r`.
pub proof fn lemma_single_role_derivation(r: Role, p: Permission)
    ensures
        derived_permissions(seq![r]).contains(p) <==> role_permissions(r).contains(p),
{
    let roles = seq![r];
    if role_permissions(r).contains(p) {
        assert(roles[0] == r);
        assert(granted_by(roles, p));
    }
}

/// With the fixed role table, the role `User` derives exactly `ReadUser`,
/// `CreatePost` and `UpdateOwnPost`.
pub proof fn lemma_user_role_permissions()
    ensures
        derived_permissions(seq![Role::User]) == set![
            Permission::ReadUser,
            Permission::CreatePost,
            Permission::UpdateOwnPost,
        ],
{
    assert forall|p: Permission|
        derived_permissions(seq![Role::User]).contains(p) <==> set![
            Permission::ReadUser,
            Permission::CreatePost,
            Permission::UpdateOwnPost,
        ].contains(p) by {
        lemma_single_role_derivation(Role::User, p);
        let row = role_permissions(Role::User);
        if row.contains(p) {
            let w = choose|w: int| 0 <= w < row.len() && row[w] == p;
        }
        assert(row[0] == Permission::ReadUser);
        assert(row[1] == Permission::CreatePost);
        assert(row[2] == Permission::UpdateOwnPost);
    }
    assert(derived_permissions(seq![Role::User]) =~= set![
        Permission::ReadUser,
        Permission::CreatePost,
        Permission::UpdateOwnPost,
    ]);
}

/// For a well-formed principal, a permission check succeeds exactly when one
/// of its roles grants the permission in the fixed table.
pub proof fn lemma_permission_check_follows_roles(user: CurrentUser, p: Permission)
    requires
        user.wf(),
    ensures
        user.permissions@.contains(p) <==> granted_by(user.roles@, p),
{
    assert(user.permissions@.contains(p) <==> user.permissions@.to_set().contains(p));
}

} // verus!
