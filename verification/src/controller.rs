//! The handle for one mass-move run. The run itself — parsing arguments,
//! walking the directory tree, matching each name and performing the
//! moves — is orchestration around the verified core and lives with the
//! unverified shell of the application.

use vstd::prelude::*;

verus! {

/// Handle for driving one mass-move run.
pub struct MassMoveController {}

impl MassMoveController {
    /// A fresh controller; it carries no state of its own.
    pub fn new() -> MassMoveController {
        MassMoveController {  }
    }
}

} // verus!
