//! A lightweight authorization library: salted-password credentials and
//! short-lived session keys, each kept in memory with a "dirty" flag and
//! persisted as CSV text only when the caller asks for it.
//!
//! Every store is mutated through `&mut self` and read through `&self`, so
//! the borrow rules give any number of concurrent readers or one writer.
use vstd::prelude::*;

pub mod table;
pub mod text;
pub mod digest;
pub mod pwd;
pub mod key;
pub mod both;
pub mod laws;

pub use pwd::PwdAuth;
pub use key::KeyAuth;
pub use both::{BothAuth, SaveAction, Store};

verus! {

/// Conditions encountered when loading or saving a database is unsuccessful.
#[derive(Debug, PartialEq, Eq)]
pub enum FileError {
    Exists(String),
    DoesNotExist(String),
    Write(String),
    Read(String),
}

/// Non-`Ok` outcomes of checking passwords or keys, or of updating a database.
#[derive(Debug, PartialEq, Eq, Structural, Clone, Copy)]
pub enum DataError {
    UserExists,
    NoSuchUser,
    BadPassword,
    KeyExpired,
    NoSuchKey,
    BadUsername,
}

} // verus!
