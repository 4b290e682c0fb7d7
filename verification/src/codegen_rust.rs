//! The Rust-translation back end, which is not available: every request is
//! refused in favour of the native back end.

use vstd::prelude::*;
use crate::mir::MirModule;

verus! {

/// Always refuses: translation to Rust is not a supported way to run a program.
pub fn compile_and_run(_module: &MirModule) -> (r: Result<(), String>)
    ensures
        r matches Err(e) && e@ == "Rust translation execution is not qualified in Omni v0.1.4; canonical execution uses the owned native AOT backend"@,
{
    Err(String::from_str("Rust translation execution is not qualified in Omni v0.1.4; canonical execution uses the owned native AOT backend"))
}

} // verus!
