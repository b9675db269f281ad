use vstd::prelude::*;
use vstd::string::*;
use crate::text::concat_str;

verus! {

/// The failures of the service.
pub enum Error {
    /// An absent or invalid credential.
    Unauthorized(String),
    /// An authenticated principal that lacks a role or a permission.
    Forbidden(String),
    /// A missing entity.
    NotFound(String),
    /// A failure of the relational store.
    Database(String),
    /// A malformed value.
    Validation(String),
    /// A failure to read the filesystem.
    Io(String),
    /// A failure inside the service.
    Server(String),
    /// A malformed argument.
    InvalidInput(String),
}

/// The HTTP status with which a request that failed with `e` is answered.
pub open spec fn status_of(e: Error) -> u16 {
    match e {
        Error::Unauthorized(_) => 401,
        Error::Forbidden(_) => 401,
        Error::NotFound(_) => 404,
        Error::Database(_) => 500,
        Error::Validation(_) => 400,
        Error::Io(_) => 500,
        Error::Server(_) => 404,
        Error::InvalidInput(_) => 400,
    }
}

/// The text of the variant's payload.
pub open spec fn detail_of(e: Error) -> Seq<char> {
    match e {
        Error::Unauthorized(m) => m@,
        Error::Forbidden(m) => m@,
        Error::NotFound(m) => m@,
        Error::Database(m) => m@,
        Error::Validation(m) => m@,
        Error::Io(m) => m@,
        Error::Server(m) => m@,
        Error::InvalidInput(m) => m@,
    }
}

impl Error {
    /// The HTTP status of the response to a request that failed with this error.
    pub fn status_code(&self) -> (r: u16)
        ensures
            r == status_of(*self),
    {
        match self {
            Error::Unauthorized(_) => 401,
            Error::Forbidden(_) => 401,
            Error::NotFound(_) => 404,
            Error::Database(_) => 500,
            Error::Validation(_) => 400,
            Error::Io(_) => 500,
            Error::Server(_) => 404,
            Error::InvalidInput(_) => 400,
        }
    }

    /// The message shown to the client: the payload, except for store and
    /// filesystem failures, whose details stay inside.
    pub fn response_message(&self) -> (r: String)
        ensures
            r@ == match *self {
                Error::Database(_) => "Internal server error"@,
                Error::Io(_) => "Internal server error"@,
                _ => detail_of(*self),
            },
    {
        match self {
            Error::Database(_) => String::from_str("Internal server error"),
            Error::Io(_) => String::from_str("Internal server error"),
            Error::Unauthorized(m) => m.clone(),
            Error::Forbidden(m) => m.clone(),
            Error::NotFound(m) => m.clone(),
            Error::Validation(m) => m.clone(),
            Error::Server(m) => m.clone(),
            Error::InvalidInput(m) => m.clone(),
        }
    }

    /// The full description: a label for the kind of failure, then the payload.
    pub fn message(&self) -> (r: String)
        ensures
            r@ == match *self {
                Error::Unauthorized(_) => "Unauthorized: "@,
                Error::Forbidden(_) => "Forbidden: "@,
                Error::NotFound(_) => "Not found: "@,
                Error::Database(_) => "Database error: "@,
                Error::Validation(_) => "Validation error: "@,
                Error::Io(_) => "IO error: "@,
                Error::Server(_) => "Server error: "@,
                Error::InvalidInput(_) => "Invalid Input error: "@,
            } + detail_of(*self),
    {
        match self {
            Error::Unauthorized(m) => concat_str("Unauthorized: ", m.as_str()),
            Error::Forbidden(m) => concat_str("Forbidden: ", m.as_str()),
            Error::NotFound(m) => concat_str("Not found: ", m.as_str()),
            Error::Database(m) => concat_str("Database error: ", m.as_str()),
            Error::Validation(m) => concat_str("Validation error: ", m.as_str()),
            Error::Io(m) => concat_str("IO error: ", m.as_str()),
            Error::Server(m) => concat_str("Server error: ", m.as_str()),
            Error::InvalidInput(m) => concat_str("Invalid Input error: ", m.as_str()),
        }
    }
}

} // verus!
