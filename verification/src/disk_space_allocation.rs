//! The disk space allocation facilities that do not touch the disk.

use vstd::prelude::*;

verus! {

/// The error type of the allocation facilities.
#[verifier::external_type_specification]
#[verifier::external_body]
pub struct ExAnyhowError(anyhow::Error);

/// Aquire the system privilges necessary for conducting disk space allocation
/// operations.
///
/// Outside Windows no privileges are needed: this always succeeds. (On Windows the volume
/// management privilege is requested from the operating system, which this library does not do.)
pub fn prepare_privileges() -> (r: Result<(), anyhow::Error>)
    ensures
        r is Ok,
{
    Ok(())
}

} // verus!
