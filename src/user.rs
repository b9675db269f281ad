use vstd::prelude::*;
use vstd::string::*;
use vstd::arithmetic::power::pow;
use time::OffsetDateTime;
use crate::error::Error;
use crate::principal::CurrentUser;
use crate::text::concat_str;

verus! {

#[verifier::external_type_specification]
#[verifier::external_body]
pub struct ExOffsetDateTime(OffsetDateTime);

/// The 128-bit value that `uuid::Uuid::parse_str` reads from a text, if it is a UUID.
pub uninterp spec fn uuid_parse(s: Seq<char>) -> Option<u128>;

/// Relies on `uuid::Uuid::parse_str`: which texts are UUIDs, and the 128-bit
/// value that each one denotes.
#[verifier::external_body]
fn parse_uuid(s: &str) -> (r: Option<u128>)
    ensures
        r == uuid_parse(s@),
{
    uuid::Uuid::parse_str(s).ok().map(|u| u.as_u128())
}

/// A lowercase hexadecimal digit.
pub open spec fn hex_digit(n: int) -> char {
    seq!['0', '1', '2', '3', '4', '5', '6', '7', '8', '9', 'a', 'b', 'c', 'd', 'e', 'f'][n]
}

/// The 32 lowercase hexadecimal digits of `id`, most significant first.
pub open spec fn uuid_hex(id: u128) -> Seq<char> {
    Seq::new(32, |i: int| hex_digit((id as int / pow(16, (31 - i) as nat)) % 16))
}

/// The hyphenated form of a UUID: its digits in groups of 8, 4, 4, 4 and 12.
pub open spec fn uuid_hyphenated(id: u128) -> Seq<char> {
    let d = uuid_hex(id);
    d.subrange(0, 8) + seq!['-'] + d.subrange(8, 12) + seq!['-'] + d.subrange(12, 16) + seq!['-']
        + d.subrange(16, 20) + seq!['-'] + d.subrange(20, 32)
}

/// Relies on the `Display` of `uuid::Uuid` (built with `Uuid::from_u128`): the
/// hyphenated lowercase form of the value.
#[verifier::external_body]
fn uuid_text(id: u128) -> (r: String)
    ensures
        r@ == uuid_hyphenated(id),
{
    uuid::Uuid::from_u128(id).to_string()
}

/// The values of the texts of `ids` that are UUIDs, in order; the others are skipped.
pub open spec fn parsed_ids(ids: Seq<String>) -> Seq<u128>
    decreases ids.len(),
{
    if ids.len() == 0 {
        Seq::empty()
    } else {
        let rest = parsed_ids(ids.drop_last());
        match uuid_parse(ids.last()@) {
            Some(v) => rest.push(v),
            None => rest,
        }
    }
}

/// A user account as the store holds it.
pub struct DbUser {
    pub id: u128,
    pub username: String,
    pub email: String,
    pub password_hash: String,
    pub is_deleted: bool,
    pub internal_notes: Option<String>,
    pub created_at: OffsetDateTime,
    pub updated_at: OffsetDateTime,
}

/// The public part of a user account.
pub struct UserProfile {
    pub id: u128,
    pub username: String,
    pub email: String,
    pub created_at: OffsetDateTime,
    pub updated_at: OffsetDateTime,
}

/// A user as the REST interface shows it.
pub struct RestUser {
    pub id: String,
    pub username: String,
}

/// A user as the GraphQL interface shows it.
pub struct GraphQLUser {
    pub id: String,
    pub username: String,
    pub email: String,
    pub created_at: OffsetDateTime,
    pub updated_at: OffsetDateTime,
}

/// The user id that a text denotes, if it is a UUID.
pub fn parse_user_id(id: &str) -> (r: Option<u128>)
    ensures
        r == uuid_parse(id@),
{
    parse_uuid(id)
}

/// The user ids that the texts of `ids` denote; texts that are not UUIDs are skipped.
pub fn parse_user_ids(ids: &Vec<String>) -> (r: Vec<u128>)
    ensures
        r@ == parsed_ids(ids@),
{
    let mut out: Vec<u128> = Vec::new();
    let mut i: usize = 0;
    while i < ids.len()
        invariant
            i <= ids.len(),
            out@ == parsed_ids(ids@.subrange(0, i as int)),
        decreases ids.len() - i,
    {
        proof {
            assert(ids@.subrange(0, i + 1).drop_last() =~= ids@.subrange(0, i as int));
        }
        match parse_uuid(ids[i].as_str()) {
            Some(v) => out.push(v),
            None => {},
        }
        i = i + 1;
    }
    assert(ids@.subrange(0, ids.len() as int) =~= ids@);
    out
}

/// The stored form of a password: the placeholder `hashed_` followed by the password.
pub fn password_hash(password: &str) -> (r: String)
    ensures
        r@ == "hashed_"@ + password@,
{
    concat_str("hashed_", password)
}

impl UserProfile {
    /// The public part of a stored account.
    pub fn from_db_user(db_user: DbUser) -> (r: UserProfile)
        ensures
            r.id == db_user.id,
            r.username == db_user.username,
            r.email == db_user.email,
            r.created_at == db_user.created_at,
            r.updated_at == db_user.updated_at,
    {
        UserProfile {
            id: db_user.id,
            username: db_user.username,
            email: db_user.email,
            created_at: db_user.created_at,
            updated_at: db_user.updated_at,
        }
    }

    /// The profile of a looked-up account, or `NotFound` when there is none.
    pub fn from_lookup(found: Option<DbUser>) -> (r: Result<UserProfile, Error>)
        ensures
            found is None <==> r is Err,
            found is Some ==> r is Ok && r->Ok_0.id == found->Some_0.id && r->Ok_0.username
                == found->Some_0.username && r->Ok_0.email == found->Some_0.email
                && r->Ok_0.created_at == found->Some_0.created_at && r->Ok_0.updated_at
                == found->Some_0.updated_at,
            r is Err ==> r->Err_0 is NotFound && r->Err_0->NotFound_0@
                == "no user with this id"@,
    {
        match found {
            Some(db_user) => Ok(UserProfile::from_db_user(db_user)),
            None => Err(Error::NotFound(String::from_str("no user with this id"))),
        }
    }
}

impl RestUser {
    /// The REST form of a profile: its id in hyphenated form and its username.
    pub fn from_profile(profile: UserProfile) -> (r: RestUser)
        ensures
            r.id@ == uuid_hyphenated(profile.id),
            r.username == profile.username,
    {
        RestUser { id: uuid_text(profile.id), username: profile.username }
    }
}

impl GraphQLUser {
    /// The GraphQL form of a profile: its id in hyphenated form, the rest as it is.
    pub fn from_profile(profile: UserProfile) -> (r: GraphQLUser)
        ensures
            r.id@ == uuid_hyphenated(profile.id),
            r.username == profile.username,
            r.email == profile.email,
            r.created_at == profile.created_at,
            r.updated_at == profile.updated_at,
    {
        GraphQLUser {
            id: uuid_text(profile.id),
            username: profile.username,
            email: profile.email,
            created_at: profile.created_at,
            updated_at: profile.updated_at,
        }
    }

    /// The GraphQL form of an authenticated principal.
    pub fn from_current_user(user: &CurrentUser) -> (r: GraphQLUser)
        ensures
            r.id@ == uuid_hyphenated(user.id),
            r.username == user.username,
            r.email == user.email,
            r.created_at == user.created_at,
            r.updated_at == user.updated_at,
    {
        GraphQLUser {
            id: uuid_text(user.id),
            username: user.username.clone(),
            email: user.email.clone(),
            created_at: user.created_at,
            updated_at: user.updated_at,
        }
    }

    /// The profile id: `profile_` followed by the user id.
    pub fn profile_id(&self) -> (r: String)
        ensures
            r@ == "profile_"@ + self.id@,
    {
        concat_str("profile_", self.id.as_str())
    }

    /// The display name: `@` followed by the username.
    pub fn display_name(&self) -> (r: String)
        ensures
            r@ == "@"@ + self.username@,
    {
        concat_str("@", self.username.as_str())
    }
}

} // verus!
