//! Core of a small user-account service: a versioned schema-migration
//! planner and a static role/permission authorization model.

pub mod error;
pub mod migration;
pub mod principal;
pub mod role;
pub mod text;
pub mod token;
pub mod user;
