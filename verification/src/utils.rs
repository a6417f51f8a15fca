//! What to make of an attribute that may be absent.

use vstd::prelude::*;
use crate::err::{IoFailure, SError, SResult};

verus! {

/// The failure says that what was looked for does not exist.
pub open spec fn is_not_found(e: SError) -> bool {
    e matches SError::Io { err, .. } && err.not_found
}

/// What was read at `path`, or nothing where there was nothing to read.
/// Any other failure is not the caller's to pass on: it ends the inventory.
pub fn into_not_found_option_or_panic_s<V>(path: &str, result: SResult<V>) -> (r: Option<V>)
    requires
        result is Ok || is_not_found(result->Err_0),
    ensures
        r == (match result {
            Ok(v) => Some(v),
            Err(_) => None,
        }),
{
    match result {
        Ok(v) => Some(v),
        Err(_) => None,
    }
}

/// What was read at `path`, or nothing where there was nothing to read.
/// Any other failure is not the caller's to pass on: it ends the inventory.
pub fn into_not_found_option_or_panic_io<V>(path: &str, result: Result<V, IoFailure>) -> (r:
    Option<V>)
    requires
        result is Ok || result->Err_0.not_found,
    ensures
        r == (match result {
            Ok(v) => Some(v),
            Err(_) => None,
        }),
{
    match result {
        Ok(v) => Some(v),
        Err(_) => None,
    }
}

} // verus!
