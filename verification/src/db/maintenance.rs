//! Backup and restore: which files a restore may copy over a database.

use vstd::prelude::*;
use crate::error::CoreError;
use crate::text::{push_str, string_from_chars};

verus! {

/// The verdict on a restore source: it must exist, open as a database whose
/// schema version is at least 1, and hold the individuals table.
/// `version` is `None` when the file could not be opened or its version read;
/// `has_individuals` is `None` when the table list could not be read.
pub open spec fn restore_source_ok(exists: bool, version: Option<i64>, has_individuals: Option<bool>) -> bool {
    exists && (version matches Some(v) && v >= 1) && has_individuals == Some(true)
}

/// Checks a restore source from what was read of it (see
/// [`restore_source_ok`]).
///
/// # Errors
/// [`CoreError::Validation`]: `restore source does not exist: <path>` when
/// there is no such file, else `restore source is not a valid Kith database:
/// <path>`.
pub fn check_restore_source(
    exists: bool,
    version: Option<i64>,
    has_individuals: Option<bool>,
    path: &str,
) -> (r: Result<(), CoreError>)
    ensures
        r is Ok <==> restore_source_ok(exists, version, has_individuals),
        !exists ==> (r matches Err(e) && e is Validation && e->Validation_0@
            == "restore source does not exist: "@ + path@),
        exists && !restore_source_ok(exists, version, has_individuals) ==> (r matches Err(e)
            && e is Validation && e->Validation_0@ == "restore source is not a valid Kith database: "@
            + path@),
{
    let mut m: Vec<char> = Vec::new();
    if !exists {
        push_str(&mut m, "restore source does not exist: ");
        push_str(&mut m, path);
        return Err(CoreError::Validation(string_from_chars(m)));
    }
    let ok = match (version, has_individuals) {
        (Some(v), Some(t)) => v >= 1 && t,
        _ => false,
    };
    if ok {
        Ok(())
    } else {
        push_str(&mut m, "restore source is not a valid Kith database: ");
        push_str(&mut m, path);
        Err(CoreError::Validation(string_from_chars(m)))
    }
}

} // verus!
