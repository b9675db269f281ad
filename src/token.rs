use vstd::prelude::*;
use vstd::string::*;
use crate::error::Error;
use crate::text::{concat_str, is_prefix, replace_all, replace_str, starts_with};

verus! {

/// The marker that every token of this service starts with.
pub open spec fn token_prefix() -> Seq<char> {
    "fake_jwt_token_"@
}

/// The scheme word that precedes a token in an `Authorization` header.
pub open spec fn bearer_prefix() -> Seq<char> {
    "Bearer "@
}

/// What verifying `token` yields: the token with every marker removed, or
/// nothing when it does not start with the marker.
pub open spec fn token_subject(token: Seq<char>) -> Option<Seq<char>> {
    if is_prefix(token_prefix(), token) {
        Some(replace_all(token, token_prefix(), Seq::empty()))
    } else {
        None
    }
}

/// Issues and checks the service's placeholder bearer tokens.
pub struct JwtService;

impl JwtService {
    /// The token of a user: the marker followed by the user id.
    pub fn generate_token(user_id: &str) -> (r: String)
        ensures
            r@ == token_prefix() + user_id@,
    {
        concat_str("fake_jwt_token_", user_id)
    }

    /// The subject of a token: the token without its markers, or `Unauthorized`
    /// when it does not start with the marker.
    pub fn verify_token(token: &str) -> (r: Result<String, Error>)
        ensures
            token_subject(token@) is Some <==> r is Ok,
            r is Ok ==> r->Ok_0@ == token_subject(token@)->Some_0,
            r is Err ==> r->Err_0 is Unauthorized && r->Err_0->Unauthorized_0@ == "Invalid token"@,
    {
        proof {
            reveal_strlit("fake_jwt_token_");
            reveal_strlit("");
            assert(""@ =~= Seq::<char>::empty());
        }
        if starts_with(token, "fake_jwt_token_") {
            Ok(replace_str(token, "fake_jwt_token_", ""))
        } else {
            Err(Error::Unauthorized(String::from_str("Invalid token")))
        }
    }

    /// Reads the subject out of an `Authorization` header value. A request with
    /// no header, or one that is not a bearer credential, stays anonymous
    /// (`Ok(None)`); a bearer token that does not verify is `Unauthorized`.
    pub fn subject_from_authorization(header: Option<&str>) -> (r: Result<Option<String>, Error>)
        ensures
            match header {
                None => r matches Ok(None),
                Some(h) => if !is_prefix(bearer_prefix(), h@) {
                    r matches Ok(None)
                } else {
                    match token_subject(h@.subrange(bearer_prefix().len() as int, h@.len() as int)) {
                        Some(subject) => r matches Ok(Some(s)) && s@ == subject,
                        None => r matches Err(Error::Unauthorized(m)) && m@ == "Invalid token"@,
                    }
                },
            },
    {
        proof {
            reveal_strlit("Bearer ");
        }
        match header {
            None => Ok(None),
            Some(h) => {
                if starts_with(h, "Bearer ") {
                    let token = h.substring_char(7, h.unicode_len());
                    match Self::verify_token(token) {
                        Ok(subject) => Ok(Some(subject)),
                        Err(e) => Err(e),
                    }
                } else {
                    Ok(None)
                }
            },
        }
    }
}

} // verus!
