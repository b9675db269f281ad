use vstd::prelude::*;

verus! {

/// An atomic action that a principal may be allowed to perform.
#[derive(Debug, Clone, Copy, PartialEq, Eq, Hash, Structural)]
pub enum Permission {
    CreateUser,
    ReadUser,
    UpdateUser,
    DeleteUser,
    ManageRoles,
    CreatePost,
    ReadPost,
    UpdatePost,
    UpdateOwnPost,
    DeletePost,
    DeleteOwnPost,
    ViewAuditLog,
    ManageSystem,
}

/// A named bundle of permissions, from a fixed closed set.
#[derive(Debug, Clone, Copy, PartialEq, Eq, Hash, Structural)]
pub enum Role {
    Admin,
    Moderator,
    User,
    Guest,
}

/// The fixed role table: the permissions that each role grants, in table order.
pub open spec fn role_permissions(r: Role) -> Seq<Permission> {
    match r {
        Role::Admin => seq![
            Permission::CreateUser,
            Permission::DeleteUser,
            Permission::UpdateUser,
            Permission::ReadUser,
            Permission::ManageRoles,
        ],
        Role::Moderator => seq![
            Permission::UpdateUser,
            Permission::ReadUser,
            Permission::CreatePost,
            Permission::DeletePost,
        ],
        Role::User => seq![Permission::ReadUser, Permission::CreatePost, Permission::UpdateOwnPost],
        Role::Guest => seq![Permission::ReadUser],
    }
}

/// Whether some role of `roles` grants `p`.
pub open spec fn granted_by(roles: Seq<Role>, p: Permission) -> bool {
    exists|i: int| 0 <= i < roles.len() && role_permissions(#[trigger] roles[i]).contains(p)
}

/// The permissions derived from a list of roles: the union of what each role grants.
pub open spec fn derived_permissions(roles: Seq<Role>) -> Set<Permission> {
    Set::new(|p: Permission| granted_by(roles, p))
}

/// The variant name of a role, as it is stored in the role table of the database.
pub open spec fn role_name(r: Role) -> Seq<char> {
    match r {
        Role::Admin => seq!['A', 'd', 'm', 'i', 'n'],
        Role::Moderator => seq!['M', 'o', 'd', 'e', 'r', 'a', 't', 'o', 'r'],
        Role::User => seq!['U', 's', 'e', 'r'],
        Role::Guest => seq!['G', 'u', 'e', 's', 't'],
    }
}

/// The variant name of a permission.
pub open spec fn permission_name(p: Permission) -> Seq<char> {
    match p {
        Permission::CreateUser => "CreateUser"@,
        Permission::ReadUser => "ReadUser"@,
        Permission::UpdateUser => "UpdateUser"@,
        Permission::DeleteUser => "DeleteUser"@,
        Permission::ManageRoles => "ManageRoles"@,
        Permission::CreatePost => "CreatePost"@,
        Permission::ReadPost => "ReadPost"@,
        Permission::UpdatePost => "UpdatePost"@,
        Permission::UpdateOwnPost => "UpdateOwnPost"@,
        Permission::DeletePost => "DeletePost"@,
        Permission::DeleteOwnPost => "DeleteOwnPost"@,
        Permission::ViewAuditLog => "ViewAuditLog"@,
        Permission::ManageSystem => "ManageSystem"@,
    }
}

impl Permission {
    /// A human-readable description of the permission.
    pub fn description(&self) -> (r: &'static str)
        ensures
            r@ == match *self {
                Permission::CreateUser => "Create new users"@,
                Permission::ReadUser => "View user information"@,
                Permission::UpdateUser => "Update user information"@,
                Permission::DeleteUser => "Delete users"@,
                Permission::ManageRoles => "Assign and remove roles"@,
                Permission::CreatePost => "Create new posts"@,
                Permission::ReadPost => "View posts"@,
                Permission::UpdatePost => "Edit any post"@,
                Permission::UpdateOwnPost => "Edit own posts only"@,
                Permission::DeletePost => "Delete any post"@,
                Permission::DeleteOwnPost => "Delete own posts only"@,
                Permission::ViewAuditLog => "View system audit logs"@,
                Permission::ManageSystem => "Mange system settings"@,
            },
    {
        match self {
            Permission::CreateUser => "Create new users",
            Permission::ReadUser => "View user information",
            Permission::UpdateUser => "Update user information",
            Permission::DeleteUser => "Delete users",
            Permission::ManageRoles => "Assign and remove roles",
            Permission::CreatePost => "Create new posts",
            Permission::ReadPost => "View posts",
            Permission::UpdatePost => "Edit any post",
            Permission::UpdateOwnPost => "Edit own posts only",
            Permission::DeletePost => "Delete any post",
            Permission::DeleteOwnPost => "Delete own posts only",
            Permission::ViewAuditLog => "View system audit logs",
            Permission::ManageSystem => "Mange system settings",
        }
    }

    /// The variant name of the permission.
    pub fn name(&self) -> (r: &'static str)
        ensures
            r@ == permission_name(*self),
    {
        match self {
            Permission::CreateUser => "CreateUser",
            Permission::ReadUser => "ReadUser",
            Permission::UpdateUser => "UpdateUser",
            Permission::DeleteUser => "DeleteUser",
            Permission::ManageRoles => "ManageRoles",
            Permission::CreatePost => "CreatePost",
            Permission::ReadPost => "ReadPost",
            Permission::UpdatePost => "UpdatePost",
            Permission::UpdateOwnPost => "UpdateOwnPost",
            Permission::DeletePost => "DeletePost",
            Permission::DeleteOwnPost => "DeleteOwnPost",
            Permission::ViewAuditLog => "ViewAuditLog",
            Permission::ManageSystem => "ManageSystem",
        }
    }
}

impl Role {
    /// The permissions that this role grants, as listed in the fixed role table.
    pub fn permissions(&self) -> (r: Vec<Permission>)
        ensures
            r@ == role_permissions(*self),
    {
        match self {
            Role::Admin => vec![
                Permission::CreateUser,
                Permission::DeleteUser,
                Permission::UpdateUser,
                Permission::ReadUser,
                Permission::ManageRoles,
            ],
            Role::Moderator => vec![
                Permission::UpdateUser,
                Permission::ReadUser,
                Permission::CreatePost,
                Permission::DeletePost,
            ],
            Role::User => vec![Permission::ReadUser, Permission::CreatePost, Permission::UpdateOwnPost],
            Role::Guest => vec![Permission::ReadUser],
        }
    }

    /// The variant name of the role.
    pub fn name(&self) -> (r: &'static str)
        ensures
            r@ == role_name(*self),
    {
        proof {
            reveal_strlit("Admin");
            reveal_strlit("Moderator");
            reveal_strlit("User");
            reveal_strlit("Guest");
        }
        match self {
            Role::Admin => "Admin",
            Role::Moderator => "Moderator",
            Role::User => "User",
            Role::Guest => "Guest",
        }
    }
}

} // verus!
