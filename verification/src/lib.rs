//! A personal URL-shortener core: alias records mapped to destination URLs,
//! a time-based base-62 alias generator, the store that owns the records,
//! and the on-disk configuration document.

use vstd::prelude::*;

pub mod config;
pub mod generator;
pub mod sql;
pub mod store;

verus! {

/// Why a store operation failed.
#[derive(Clone, Copy, Debug, PartialEq, Eq, Structural)]
pub enum StoreError {
    /// The backing store is unreachable or refused the connection.
    ConnectionError,
    /// No record matches the given alias.
    NotFoundError,
    /// A uniqueness constraint was violated, e.g. the minted alias collided
    /// with an existing one.
    ConstraintError,
    /// The wall clock could not be read, so no alias could be minted.
    ClockError,
}

} // verus!
