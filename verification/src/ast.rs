//! The syntax tree: programs, statements and expressions, with visibilities,
//! match patterns, enum variants and diagnostic attributes.
//!
//! A floating-point literal is held as the bit pattern of its `f64` value;
//! nothing here computes with it.

use vstd::prelude::*;
use crate::complete_lexer::TokenKind;
use crate::diagnostics::Span;

verus! {

/// Who may see a declaration.
#[derive(Debug, Clone)]
pub enum Visibility {
    Private,
    PubMod,
    PubPkg,
    Pub,
    PubCap(String),
    PubFriend(String),
}

impl Default for Visibility {
    fn default() -> (v: Self)
        ensures
            v is Private,
    {
        Visibility::Private
    }
}

/// A match pattern.
#[derive(Debug)]
pub enum Pattern {
    Wildcard,
    Literal(i64),
    Var(String),
    Struct(String, Vec<(String, Pattern)>),
    Or(Vec<Pattern>),
}

/// An enum variant: its name and its payload fields (name, type).
#[derive(Debug, Clone)]
pub struct EnumVariant {
    pub name: String,
    pub fields: Vec<(String, String)>,
}

/// A user-supplied diagnostic: a message and an optional label.
#[derive(Debug, Clone)]
pub struct DiagnosticAttribute {
    pub message: String,
    pub label: Option<String>,
}

/// A whole program: its top-level statements.
#[derive(Debug)]
pub struct Program {
    pub stmts: Vec<Stmt>,
}

impl Program {
    /// A program with no statements.
    pub fn new() -> (p: Self)
        ensures
            p.stmts@.len() == 0,
    {
        Program { stmts: Vec::new() }
    }
}

/// An expression.
#[derive(Debug)]
pub enum Expr {
    StringLit(String, Span),
    ByteString(Vec<u8>, Span),
    Byte(u8, Span),
    Interpolated(Vec<InterpolatedFragment>, Span),
    Number(i64, Span),
    /// A floating-point literal, as the bits of its `f64` value.
    Float(u64, Span),
    Char(char, Span),
    Var(String, Span),
    Bool(bool, Span),
    Call(String, Vec<Expr>, Span),
    BinaryOp { op: TokenKind, left: Box<Expr>, right: Box<Expr>, span: Span },
    UnaryOp { op: TokenKind, inner: Box<Expr>, span: Span },
    Borrow { mutable: bool, inner: Box<Expr>, span: Span },
    Deref { inner: Box<Expr>, span: Span },
    FieldAccess { base: Box<Expr>, field: String, span: Span },
    IfExpr { cond: Box<Expr>, then: Box<Expr>, else_: Box<Expr>, span: Span },
    Block(Vec<Stmt>, Span),
    Tuple(Vec<Expr>, Span),
    Array(Vec<Expr>, Span),
    Index(Box<Expr>, Box<Expr>, Span),
    Match { expr: Box<Expr>, arms: Vec<MatchArm>, span: Span },
    Range { start: Box<Expr>, end: Box<Expr>, inclusive: bool, span: Span },
    Lambda { params: Vec<(String, Option<String>)>, body: Box<Expr>, span: Span },
    Await(Box<Expr>, Span),
    Try(Box<Expr>, Span),
    StructLit { name: String, fields: Vec<(String, Expr)>, span: Span },
}

/// A piece of an interpolated string: literal text or an embedded expression.
#[derive(Debug)]
pub enum InterpolatedFragment {
    Literal(String, Span),
    Expr(Box<Expr>),
}

/// One arm of a `match`.
#[derive(Debug)]
pub struct MatchArm {
    pub pattern: Pattern,
    pub guard: Option<Box<Expr>>,
    pub body: Box<Expr>,
    pub span: Span,
}

/// A statement.
#[derive(Debug)]
pub enum Stmt {
    Annotation(String, Span),
    Print(Expr, Span),
    Let(String, Option<String>, Expr, Span),
    LetMut(String, Option<String>, Expr, Span),
    LetLinear(String, Option<String>, Expr, Span),
    ExprStmt(Expr, Span),
    Block(Vec<Stmt>, Span),
    Mod(String, Span),
    ModBlock(String, Vec<Stmt>, Span),
    Fn {
        name: String,
        visibility: Visibility,
        is_async: bool,
        type_params: Vec<(String, Vec<String>)>,
        params: Vec<(String, Option<String>)>,
        ret_type: Option<String>,
        effects: Vec<String>,
        contracts: Vec<Stmt>,
        body: Vec<Stmt>,
        span: Span,
    },
    Struct { name: String, visibility: Visibility, fields: Vec<(String, String)>, is_linear: bool, span: Span },
    Enum { name: String, visibility: Visibility, variants: Vec<EnumVariant>, is_sealed: bool, span: Span },
    ErrorSet { name: String, visibility: Visibility, variants: Vec<EnumVariant>, span: Span },
    If { cond: Box<Expr>, bindings: Vec<(String, Expr)>, then_body: Vec<Stmt>, else_body: Vec<Stmt>, span: Span },
    Loop { body: Vec<Stmt>, span: Span },
    For { var_name: String, iterable: Box<Expr>, body: Vec<Stmt>, span: Span },
    While { cond: Box<Expr>, body: Vec<Stmt>, span: Span },
    Return(Expr, Span),
    Break(Span),
    Continue(Span),
    Defer { cleanup: Box<Stmt>, span: Span },
    AsyncDefer { cleanup: Box<Stmt>, span: Span },
    Assign(String, Expr, Span),
    ExprFieldAssign(Box<Expr>, String, Expr, Span),
    DerefAssign(Box<Expr>, Expr, Span),
    WhileIn { var_name: String, iterable: Box<Expr>, body: Vec<Stmt>, span: Span },
    Unsafe { body: Vec<Stmt>, span: Span },
    Impl {
        target: String,
        visibility: Visibility,
        type_params: Vec<(String, Vec<String>)>,
        for_type: Option<String>,
        methods: Vec<Stmt>,
        span: Span,
    },
    Trait {
        name: String,
        visibility: Visibility,
        type_params: Vec<(String, Vec<String>)>,
        methods: Vec<Stmt>,
        diagnostic_attrs: Vec<DiagnosticAttribute>,
        span: Span,
    },
    TypeAlias { name: String, visibility: Visibility, type_params: Vec<(String, Vec<String>)>, target: String, span: Span },
    Use { path: String, alias: Option<String>, span: Span },
    UseScoped { path: String, aliases: Vec<(String, Option<String>)>, body: Vec<Stmt>, span: Span },
    GcMode { mode: String, span: Span },
    CancelToken { inner: Option<Box<Stmt>>, span: Span },
    EffectHandler { effect: String, handler: Box<Expr>, span: Span },
    Spawn { task: Box<Expr>, span: Span },
    Channel { elem_type: String, capacity: Option<u32>, span: Span },
    Actor { name: String, state: String, handlers: Vec<Stmt>, span: Span },
    WorkStealingExecutor { num_threads: u32, queue_type: String, span: Span },
    DeterministicRuntime { max_tasks: u32, span: Span },
    Tensor { shape: Vec<u32>, dtype: String, span: Span },
    Simd { width: u32, elem_type: String, span: Span },
    DocComment { target: String, content: String, span: Span },
    DebugSession { port: u32, breakpoints: Vec<String>, span: Span },
    Capability { name: String, permissions: Vec<String>, span: Span },
    FfiSandbox { allow_list: Vec<String>, span: Span },
    ContractRequires { condition: Expr, message: String, span: Span },
    ContractEnsures { condition: Expr, message: String, span: Span },
    ContractInvariant { condition: Expr, message: String, span: Span },
    ComptimeLimit { max_ops: u64, span: Span },
}

/// The abstract content of a span.
pub open spec fn span_view(s: Span) -> (usize, usize, usize, usize, Option<Seq<char>>) {
    (s.start_line, s.start_col, s.end_line, s.end_col, match s.source_text { Some(t) => Some(t@), None => None })
}

/// A copy of a span.
pub fn copy_span(s: &Span) -> (r: Span)
    ensures
        span_view(r) == span_view(*s),
{
    Span {
        start_line: s.start_line,
        start_col: s.start_col,
        end_line: s.end_line,
        end_col: s.end_col,
        source_text: match &s.source_text {
            Some(t) => Some(t.clone()),
            None => None,
        },
    }
}

/// The span an expression covers.
pub open spec fn expr_span(e: Expr) -> Span {
    match e {
        Expr::StringLit(_, s) | Expr::ByteString(_, s) | Expr::Byte(_, s) | Expr::Interpolated(_, s)
        | Expr::Number(_, s) | Expr::Float(_, s) | Expr::Char(_, s) | Expr::Var(_, s) | Expr::Bool(_, s)
        | Expr::Call(_, _, s) | Expr::Block(_, s) | Expr::Tuple(_, s) | Expr::Array(_, s)
        | Expr::Index(_, _, s) | Expr::Await(_, s) | Expr::Try(_, s) => s,
        Expr::BinaryOp { span, .. } | Expr::UnaryOp { span, .. } | Expr::Borrow { span, .. }
        | Expr::Deref { span, .. } | Expr::FieldAccess { span, .. } | Expr::IfExpr { span, .. }
        | Expr::Match { span, .. } | Expr::Range { span, .. } | Expr::Lambda { span, .. }
        | Expr::StructLit { span, .. } => span,
    }
}

impl Expr {
    /// The span the expression covers.
    pub fn span(&self) -> (s: Span)
        ensures
            span_view(s) == span_view(expr_span(*self)),
    {
        match self {
            Expr::StringLit(_, s) | Expr::ByteString(_, s) | Expr::Byte(_, s) | Expr::Interpolated(_, s)
            | Expr::Number(_, s) | Expr::Float(_, s) | Expr::Char(_, s) | Expr::Var(_, s) | Expr::Bool(_, s)
            | Expr::Call(_, _, s) | Expr::Block(_, s) | Expr::Tuple(_, s) | Expr::Array(_, s)
            | Expr::Index(_, _, s) | Expr::Await(_, s) | Expr::Try(_, s) => copy_span(s),
            Expr::BinaryOp { span, .. } | Expr::UnaryOp { span, .. } | Expr::Borrow { span, .. }
            | Expr::Deref { span, .. } | Expr::FieldAccess { span, .. } | Expr::IfExpr { span, .. }
            | Expr::Match { span, .. } | Expr::Range { span, .. } | Expr::Lambda { span, .. }
            | Expr::StructLit { span, .. } => copy_span(span),
        }
    }
}

} // verus!
