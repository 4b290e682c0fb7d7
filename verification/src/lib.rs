pub mod text;
pub mod strmap;
pub mod levenshtein;
pub mod generational_refs;
pub mod async_effects;
pub mod linear_types;
pub mod diagnostics;
pub mod lexer;
pub mod cst;
pub mod complete_lexer;
pub mod macros;
pub mod mir;
pub mod inout_desugar;
pub mod formatter;
pub mod type_export;
pub mod abi_check;
pub mod ast;
pub mod lsp;
pub mod driver;
pub mod doc_gen;
pub mod llvm_detect;
pub mod codegen_rust;
pub mod borrow_check;
pub mod interpreter;
pub mod integration;
pub mod control_flow;
pub mod effect_resolver;
pub mod codegen_lir;
pub mod lsp_incr_db;
pub mod comptime;
