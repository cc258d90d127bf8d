//! The engine's own syntax tree over one source unit.
//!
//! One variant per syntactic form the analyses handle, plus a catch-all
//! variant that every traversal ignores.  Positions are 0-indexed lines and
//! UTF-16 display columns, converted from the external parser's byte spans
//! while the tree is decoded.  Forms the analyses treat alike are merged:
//! parentheses and TypeScript cast/assertion wrappers are all `Wrap`, and
//! `for..in`/`for..of` are both `ForEach`.

use vstd::prelude::*;

verus! {

/// A source range: 0-indexed lines, UTF-16 display columns.
#[derive(Clone, Copy, PartialEq, Eq, Structural)]
pub struct Span {
    pub start_line: u32,
    pub start_col: u32,
    pub end_line: u32,
    pub end_col: u32,
}

pub enum Expr {
    /// A string literal.
    StrLit { value: String },
    /// A template literal: `quasis` interleaved with `exprs`.
    Tpl { quasis: Vec<String>, exprs: Vec<Expr> },
    /// An identifier reference, with the line it stands on.
    Ident { name: String, line: u32 },
    /// Binary `+`.
    Add { left: Box<Expr>, right: Box<Expr> },
    /// Any other binary operator.
    BinOther { left: Box<Expr>, right: Box<Expr> },
    /// A transparent wrapper: parentheses, `as`, `satisfies`, `as const`,
    /// or a non-null assertion.
    Wrap { inner: Box<Expr> },
    /// A call; `callee` is absent for `super(..)` / `import(..)`.
    Call { callee: Option<Box<Expr>>, args: Vec<Arg>, line: u32 },
    /// A member access; `prop` is the property name when it is a plain
    /// identifier, `computed` the index expression when it is computed.
    Member { obj: Box<Expr>, prop: Option<String>, computed: Option<Box<Expr>> },
    Arrow { body: ArrowBody },
    /// A function expression.
    Func { body: Option<Block> },
    Cond { test: Box<Expr>, cons: Box<Expr>, alt: Box<Expr> },
    /// An assignment; only the right-hand side is analyzed.
    Assign { right: Box<Expr> },
    Array { elems: Vec<Expr> },
    Object { parts: Vec<ObjectPart> },
    TaggedTpl { tag: Box<Expr>, exprs: Vec<Expr> },
    /// A comma expression.
    Comma { exprs: Vec<Expr> },
    Jsx(Box<JsxElem>),
    JsxFrag { children: Vec<JsxChild> },
    Await { inner: Box<Expr> },
    Yield { inner: Option<Box<Expr>> },
    Unary { inner: Box<Expr> },
    Other,
}

/// One call argument, with the argument expression's source range.
pub struct Arg {
    pub expr: Expr,
    pub span: Span,
}

pub enum ObjectPart {
    /// The value of a key/value property.
    Value(Expr),
    /// A spread.
    Spread(Expr),
    Other,
}

pub enum ArrowBody {
    Block(Block),
    /// An expression body; the range is the whole arrow's.
    Expr { expr: Box<Expr>, start_line: u32, end_line: u32 },
}

/// A function body, with the line range it spans.
pub struct Block {
    pub stmts: Vec<Stmt>,
    pub start_line: u32,
    pub end_line: u32,
}

pub enum Stmt {
    Expr { expr: Box<Expr> },
    Decl(Decl),
    Return { arg: Option<Box<Expr>> },
    Block { stmts: Vec<Stmt> },
    If { test: Box<Expr>, cons: Box<Stmt>, alt: Option<Box<Stmt>> },
    Switch { disc: Box<Expr>, cases: Vec<SwitchCase> },
    For {
        init: Option<ForInit>,
        test: Option<Box<Expr>>,
        update: Option<Box<Expr>>,
        body: Box<Stmt>,
    },
    /// `for..in` or `for..of`.
    ForEach { left: Option<VarDecl>, right: Box<Expr>, body: Box<Stmt> },
    While { test: Box<Expr>, body: Box<Stmt> },
    DoWhile { body: Box<Stmt>, test: Box<Expr> },
    Try { block: Vec<Stmt>, handler: Option<Vec<Stmt>>, finalizer: Option<Vec<Stmt>> },
    Other,
}

pub struct SwitchCase {
    pub test: Option<Box<Expr>>,
    pub cons: Vec<Stmt>,
}

pub enum ForInit {
    Var(VarDecl),
    Expr(Box<Expr>),
}

pub enum Decl {
    Var(VarDecl),
    Func { body: Option<Block> },
    Other,
}

pub struct VarDecl {
    pub is_const: bool,
    pub decls: Vec<VarDeclarator>,
}

pub struct VarDeclarator {
    pub name: Pat,
    pub init: Option<Box<Expr>>,
}

pub enum Pat {
    Ident { name: String },
    Object { props: Vec<PatProp> },
    Array { elems: Vec<Pat> },
    /// A hole in an array pattern.
    Missing,
    Other,
}

pub enum PatProp {
    /// `{ t }` or `{ t = default }`.
    Shorthand { key: String },
    /// `{ key: value }`; `key` is absent when not a plain identifier.
    KeyValue { key: Option<String>, value: Box<Pat> },
    Rest,
}

pub struct JsxElem {
    /// The element name, dotted segments joined (`Foo.Bar`).
    pub name: String,
    /// Expressions of expression-container attribute values, in order.
    pub attrs: Vec<Expr>,
    pub children: Vec<JsxChild>,
}

pub enum JsxChild {
    Text { value: String, span: Span },
    /// An expression container; `span` is the container's range and
    /// `expr_span` the inner expression's.
    Container { expr: Option<Box<Expr>>, span: Span, expr_span: Span },
    Elem(Box<JsxElem>),
    Frag { children: Vec<JsxChild> },
    Other,
}

pub enum ModuleItem {
    Stmt(Stmt),
    ExportDecl(Decl),
    ExportDefaultExpr(Box<Expr>),
    ExportDefaultFunc { body: Option<Block> },
    Other,
}

/// The whole source unit.
pub struct Module {
    pub body: Vec<ModuleItem>,
}

} // verus!
