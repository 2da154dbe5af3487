//! The one place the library asks the operating system who is running it.

use vstd::prelude::*;

verus! {

/// Relies on uzers::get_current_username: asks the operating system for the
/// name of the user owning this process. The answer depends on the
/// environment, so nothing is promised of it; callers check what they need
/// of the returned name themselves.
#[verifier::external_body]
pub(crate) fn current_username() -> (r: Option<String>) {
    uzers::get_current_username().and_then(|n| n.into_string().ok())
}

} // verus!
