//! The diagnostic codes used by the library.

use vstd::prelude::*;
use super::DiagnosticCode;

verus! {

/// E7001: a feature the code generator does not support.
pub fn codegen_unsupported_feature() -> (c: DiagnosticCode)
    ensures
        c.0@ == "7001"@,
{
    DiagnosticCode("7001")
}

} // verus!
