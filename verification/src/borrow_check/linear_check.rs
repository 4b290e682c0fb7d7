//! Linear-value checking over statement texts.

use vstd::prelude::*;
use crate::diagnostics::Diagnostic;

verus! {

/// Checks that linear values are used exactly once. No statement form is
/// recognised yet, so every statement list passes.
pub fn check_linear_values(stmts: &[String]) -> (r: Result<(), Diagnostic>)
    ensures
        r is Ok,
{
    let mut i: usize = 0;
    while i < stmts.len()
        invariant
            i <= stmts@.len(),
        decreases stmts.len() - i,
    {
        i = i + 1;
    }
    Ok(())
}

} // verus!
