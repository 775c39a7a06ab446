//! Common assertion helpers shared with the crate's tests.
//!
//! They collapse `Result` handling down to a single call in tests that only
//! proceed on success; the precondition records that obligation.

use vstd::prelude::*;

use crate::TeiError;

verus! {

/// Extracts the serialised markup from a successful result.
///
/// Callers must have established that serialisation succeeded.
pub fn expect_markup(result: Result<String, TeiError>) -> (r: String)
    requires
        result is Ok,
    ensures
        r == result->Ok_0,
{
    match result {
        Ok(value) => value,
        Err(_) => vstd::pervasive::unreached(),
    }
}

/// Returns successfully initialised fixture state.
///
/// Callers must have established that initialisation succeeded; `context`
/// names the scenario for the reader.
pub fn expect_validated_state<T, E>(result: Result<T, E>, context: &str) -> (r: T)
    requires
        result is Ok,
    ensures
        r == result->Ok_0,
{
    let _ = context;
    match result {
        Ok(value) => value,
        Err(_) => vstd::pervasive::unreached(),
    }
}

} // verus!
