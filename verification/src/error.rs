//! The error every fallible library operation returns.

use vstd::prelude::*;
use crate::num::{int_text, push_int};
use crate::text::{push_str, string_from_chars};

verus! {

/// The error returned by every fallible operation.
///
/// Storage failures (the database, its connection pool, its migrations, file
/// I/O) carry the underlying failure's message; domain failures (`NotFound`,
/// `Validation`) carry their own.
#[derive(Debug, Clone, PartialEq, Eq)]
pub enum CoreError {
    /// A database operation failed.
    Database(String),
    /// Acquiring a database connection failed.
    Pool(String),
    /// Applying schema migrations failed.
    Migration(String),
    /// An I/O operation failed.
    Io(String),
    /// A requested entity does not exist.
    NotFound {
        /// The entity kind, e.g. `"individual"` or `"family"`.
        entity: &'static str,
        /// The numeric id that was not found.
        id: i64,
    },
    /// A value failed domain validation.
    Validation(String),
}

/// The message of an error, as its `Display` reads.
pub open spec fn error_message(e: CoreError) -> Seq<char> {
    match e {
        CoreError::Database(m) => m@,
        CoreError::Pool(m) => m@,
        CoreError::Migration(m) => m@,
        CoreError::Io(m) => m@,
        CoreError::NotFound { entity, id } => entity@ + " with id "@ + int_text(id as int)
            + " not found"@,
        CoreError::Validation(m) => m@,
    }
}

/// The stable machine name of an error's category.
pub open spec fn spec_error_kind(e: CoreError) -> Seq<char> {
    match e {
        CoreError::NotFound { .. } => "not_found"@,
        CoreError::Validation(_) => "validation"@,
        CoreError::Io(_) => "io"@,
        CoreError::Database(_) | CoreError::Pool(_) | CoreError::Migration(_) => "database"@,
    }
}

/// The process exit code for an error's category.
pub open spec fn spec_exit_code(e: CoreError) -> u8 {
    match e {
        CoreError::NotFound { .. } => 3,
        CoreError::Validation(_) => 4,
        CoreError::Io(_) => 5,
        CoreError::Database(_) | CoreError::Pool(_) | CoreError::Migration(_) => 6,
    }
}

impl CoreError {
    /// The error's message (`"individual with id 7 not found"`, or the carried
    /// message).
    pub fn message(&self) -> (r: String)
        ensures
            r@ == error_message(*self),
    {
        match self {
            CoreError::Database(m) => m.clone(),
            CoreError::Pool(m) => m.clone(),
            CoreError::Migration(m) => m.clone(),
            CoreError::Io(m) => m.clone(),
            CoreError::NotFound { entity, id } => {
                let mut out: Vec<char> = Vec::new();
                push_str(&mut out, entity);
                push_str(&mut out, " with id ");
                push_int(&mut out, *id);
                push_str(&mut out, " not found");
                string_from_chars(out)
            },
            CoreError::Validation(m) => m.clone(),
        }
    }

    /// A stable machine string for the error's category: `not_found`,
    /// `validation`, `io`, or `database` (database, pool and migration
    /// failures alike).
    pub fn kind(&self) -> (r: &'static str)
        ensures
            r@ == spec_error_kind(*self),
    {
        match self {
            CoreError::NotFound { .. } => "not_found",
            CoreError::Validation(_) => "validation",
            CoreError::Io(_) => "io",
            CoreError::Database(_) | CoreError::Pool(_) | CoreError::Migration(_) => "database",
        }
    }

    /// The process exit code for this error: `3` not found, `4` validation,
    /// `5` I/O, `6` database/pool/migration.
    pub fn exit_code(&self) -> (r: u8)
        ensures
            r == spec_exit_code(*self),
    {
        match self {
            CoreError::NotFound { .. } => 3,
            CoreError::Validation(_) => 4,
            CoreError::Io(_) => 5,
            CoreError::Database(_) | CoreError::Pool(_) | CoreError::Migration(_) => 6,
        }
    }
}

} // verus!
