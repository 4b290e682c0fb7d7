//! The compiler driver's configuration: the source text, the back end, and
//! where the source came from.

use vstd::prelude::*;
use std::path::PathBuf;

verus! {

/// std's path buffer, carried as it is.
#[verifier::external_type_specification]
#[verifier::external_body]
pub struct ExPathBuf(PathBuf);

/// A code generation back end.
#[derive(Debug, Clone, Copy, PartialEq, Eq, Structural)]
pub enum Backend {
    /// Owned AOT backend. This is the canonical execution target.
    Native,
    /// Development-only JIT backend.
    Cranelift,
    LLVM,
    Wasm,
    Rust,
}

/// A compilation: the source text, the back end, and the source's path if known.
pub struct Compiler {
    pub source: String,
    pub backend: Backend,
    pub source_path: Option<PathBuf>,
}

impl Compiler {
    pub fn new(source: &str, backend: Backend) -> (c: Self)
        ensures
            c.source@ == source@,
            c.backend == backend,
            c.source_path is None,
    {
        Compiler { source: String::from_str(source), backend, source_path: None }
    }

    pub fn with_path(source: &str, backend: Backend, path: PathBuf) -> (c: Self)
        ensures
            c.source@ == source@,
            c.backend == backend,
            c.source_path == Some(path),
    {
        Compiler { source: String::from_str(source), backend, source_path: Some(path) }
    }
}

} // verus!
