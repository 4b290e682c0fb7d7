//! What is known of an LLVM installation, and how it is reported.

use vstd::prelude::*;

verus! {

/// A detected LLVM installation.
pub struct LlvConfig {
    pub version: String,
    pub prefix: Option<String>,
    pub inkwell_available: bool,
}

/// Whether an installation was found.
pub fn is_llvm_available(detected: &Option<LlvConfig>) -> (b: bool)
    ensures
        b == detected.is_some(),
{
    detected.is_some()
}

/// The version of the installation found, or "not found".
pub fn get_llvm_version(detected: Option<LlvConfig>) -> (v: String)
    ensures
        v@ == (match detected {
            Some(c) => c.version@,
            None => "not found"@,
        }),
{
    match detected {
        Some(c) => c.version,
        None => String::from_str("not found"),
    }
}

} // verus!
