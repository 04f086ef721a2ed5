//! The syntax tree the analyses read.
//!
//! Each node keeps what an analysis looks at: names, child nodes, the source
//! range of the node and, for expressions, the source text the range covers.
//! Tokens that carry no meaning of their own (keywords, brackets, operators)
//! are left out; a separator of a punctuated list is kept as its source range.

use vstd::prelude::*;

verus! {

/// A half-open range of byte offsets into the source of one file.
///
/// Two spans are the same span exactly when both offsets agree, which makes a
/// span a key for the node it was taken from.
#[derive(Clone, Copy, Debug, PartialEq, Eq, Structural)]
pub struct Span {
    pub start: usize,
    pub end: usize,
}

/// An identifier together with the place it was written.
#[derive(Debug)]
pub struct Ident {
    pub name: String,
    pub span: Span,
}

impl Clone for Ident {
    fn clone(&self) -> (r: Self)
        ensures
            r == *self,
    {
        Ident { name: self.name.clone(), span: self.span }
    }
}

/// A list `a, b, c` or `a, b, c,`: values followed by a separator, and
/// possibly a last value that no separator follows.
#[derive(Debug)]
pub struct Punctuated<T, P> {
    pub value_separator_pairs: Vec<(T, P)>,
    pub final_value_opt: Option<Box<T>>,
}

impl<T, P> Punctuated<T, P> {
    /// How many values the list holds.
    pub open spec fn count(&self) -> nat {
        if self.final_value_opt is Some {
            self.value_separator_pairs@.len() + 1
        } else {
            self.value_separator_pairs@.len()
        }
    }

    /// The `k`-th value of the list.
    pub open spec fn value(&self, k: int) -> T
        recommends
            0 <= k < self.count(),
    {
        if k < self.value_separator_pairs@.len() {
            self.value_separator_pairs@[k].0
        } else {
            *self.final_value_opt->0
        }
    }

    /// The values in order, separators dropped.
    pub open spec fn values(&self) -> Seq<T> {
        Seq::new(self.count(), |k: int| self.value(k))
    }
}

/// `a::b::c`
#[derive(Debug)]
pub struct PathExpr {
    pub prefix: Ident,
    pub suffix: Vec<Ident>,
}

/// A prefix operator: `&`, `*` or `!`.
#[derive(Clone, Copy, Debug, PartialEq, Eq, Structural)]
pub enum UnaryOp {
    Ref,
    Deref,
    Not,
}

/// An infix operator.
#[derive(Clone, Copy, Debug, PartialEq, Eq, Structural)]
pub enum BinaryOp {
    Mul,
    Div,
    Pow,
    Modulo,
    Add,
    Sub,
    Shl,
    Shr,
    BitAnd,
    BitXor,
    BitOr,
    Equal,
    NotEqual,
    LessThan,
    GreaterThan,
    LessThanEq,
    GreaterThanEq,
    LogicalAnd,
    LogicalOr,
}

/// An expression: where it stands, the text it was written as, and its form.
#[derive(Debug)]
pub struct Expr {
    pub span: Span,
    pub text: String,
    pub kind: ExprKind,
}

/// The forms of an expression.
#[derive(Debug)]
#[allow(inconsistent_fields)]
pub enum ExprKind {
    /// A malformed expression the parser recovered from.
    Error,
    Path(PathExpr),
    Literal,
    AbiCast { address: Box<Expr> },
    Struct { path: PathExpr, fields: Punctuated<ExprStructField, Span> },
    Tuple(ExprTupleDescriptor),
    Parens(Box<Expr>),
    Block(CodeBlock),
    Array(ExprArrayDescriptor),
    Asm(AsmBlock),
    Return { expr_opt: Option<Box<Expr>> },
    If(IfExpr),
    Match { value: Box<Expr>, branches: Vec<MatchBranch> },
    While { condition: Box<Expr>, block: CodeBlock },
    FuncApp { func: Box<Expr>, args: Punctuated<Expr, Span> },
    Index { target: Box<Expr>, arg: Box<Expr> },
    MethodCall {
        target: Box<Expr>,
        path_seg: Ident,
        contract_args_opt: Option<Punctuated<ExprStructField, Span>>,
        args: Punctuated<Expr, Span>,
    },
    FieldProjection { target: Box<Expr>, name: Ident },
    TupleFieldProjection { target: Box<Expr> },
    Unary { op: UnaryOp, expr: Box<Expr> },
    Binary { op: BinaryOp, lhs: Box<Expr>, rhs: Box<Expr> },
    Reassignment { assignable: Assignable, expr: Box<Expr> },
    Break,
    Continue,
}

/// `name: expr` in a struct expression, or the shorthand `name`.
#[derive(Debug)]
pub struct ExprStructField {
    pub field_name: Ident,
    pub expr_opt: Option<Box<Expr>>,
}

/// The elements of a tuple expression: none, or a first one and the rest.
#[derive(Debug)]
pub enum ExprTupleDescriptor {
    Nil,
    Cons { head: Box<Expr>, tail: Punctuated<Expr, Span> },
}

/// The elements of an array expression: `[a, b, c]` or `[value; length]`.
#[derive(Debug)]
pub enum ExprArrayDescriptor {
    Sequence(Punctuated<Expr, Span>),
    Repeat { value: Box<Expr>, length: Box<Expr> },
}

/// `{ statements; final_expr }`
#[derive(Debug)]
pub struct CodeBlock {
    pub span: Span,
    pub statements: Vec<Statement>,
    pub final_expr_opt: Option<Box<Expr>>,
}

/// `if condition { .. } else ..`
#[derive(Debug)]
pub struct IfExpr {
    pub condition: IfCondition,
    pub then_block: CodeBlock,
    pub else_opt: Option<ElseBranch>,
}

/// The condition of an `if`: an expression, or `let pattern = value`.
#[derive(Debug)]
pub enum IfCondition {
    Expr(Box<Expr>),
    Let { lhs: Box<Pattern>, rhs: Box<Expr> },
}

/// What follows `else`: another `if`, or a block.
#[derive(Debug)]
pub enum ElseBranch {
    ElseIf(Box<IfExpr>),
    Else(CodeBlock),
}

/// One arm of a match.
#[derive(Debug)]
pub struct MatchBranch {
    pub pattern: Pattern,
    pub kind: MatchBranchKind,
}

/// The right side of a match arm: a block, or an expression.
#[derive(Debug)]
pub enum MatchBranchKind {
    Block { block: CodeBlock },
    Expr { expr: Expr },
}

/// An inline assembly block; only its place is kept.
#[derive(Debug)]
pub struct AsmBlock {
    pub span: Span,
}

/// The left side of an assignment.
#[derive(Debug)]
pub struct Assignable {
    pub span: Span,
    pub kind: AssignableKind,
}

/// The forms of an assignment target.
#[derive(Debug)]
#[allow(inconsistent_fields)]
pub enum AssignableKind {
    Var(Ident),
    Index { target: Box<Assignable>, arg: Box<Expr> },
    FieldProjection { target: Box<Assignable>, name: Ident },
    TupleFieldProjection { target: Box<Assignable> },
}

/// A pattern, as in a `let` or a match arm.
#[derive(Debug)]
pub enum Pattern {
    Or { lhs: Box<Pattern>, rhs: Box<Pattern> },
    Wildcard,
    /// A lone identifier: a new binding, or a constant of that name.
    AmbiguousSingleIdent(Ident),
    Var { mutable: bool, name: Ident },
    Literal,
    Constant(PathExpr),
    Constructor { path: PathExpr, args: Punctuated<Pattern, Span> },
    Struct { path: PathExpr, fields: Punctuated<PatternStructField, Span> },
    Tuple(Punctuated<Pattern, Span>),
    /// A malformed pattern the parser recovered from.
    Error,
}

/// A field of a struct pattern: `..`, `name` or `name: pattern`.
#[derive(Debug)]
pub enum PatternStructField {
    Rest,
    Field { field_name: Ident, pattern_opt: Option<Box<Pattern>> },
}

/// A statement of a block.
#[derive(Debug)]
pub enum Statement {
    Let(StatementLet),
    /// An item declared inside a block; the analyses do not look into it.
    Item,
    Expr { expr: Expr },
    /// A malformed statement the parser recovered from.
    Error,
}

/// `let pattern = expr;`
#[derive(Debug)]
pub struct StatementLet {
    pub pattern: Pattern,
    pub expr: Expr,
}

/// `#[name(arg, ..)]`
#[derive(Debug)]
pub struct Attribute {
    pub name: Ident,
    pub args: Option<Punctuated<AttributeArg, Span>>,
}

/// One argument of an attribute.
#[derive(Debug)]
pub struct AttributeArg {
    pub name: Ident,
}

/// One `#[..]` line, which may hold several attributes.
#[derive(Debug)]
pub struct AttributeDecl {
    pub attribute: Punctuated<Attribute, Span>,
}

/// What a `use` brings in.
#[derive(Debug)]
pub enum UseTree {
    Group { imports: Punctuated<UseTree, Span> },
    Name { name: Ident },
    Rename { name: Ident, alias: Ident },
    Glob,
    Path { prefix: Ident, suffix: Box<UseTree> },
    Error,
}

/// `use tree;`
#[derive(Debug)]
pub struct ItemUse {
    pub tree: UseTree,
}

/// The head of a function; its span is the key under which facts about the
/// function are kept.
#[derive(Debug)]
pub struct FnSignature {
    pub span: Span,
    pub name: Ident,
}

/// A function with its body.
#[derive(Debug)]
pub struct ItemFn {
    pub fn_signature: FnSignature,
    pub body: CodeBlock,
}

/// A member of an implementation.
#[derive(Debug)]
pub enum ItemImplItem {
    Fn(ItemFn),
    /// A constant or a type of the implementation.
    Other,
}

/// `impl Type { .. }`
#[derive(Debug)]
pub struct ItemImpl {
    /// The implementing type, as written.
    pub ty: String,
    pub contents: Vec<ItemImplItem>,
}

/// The forms of an item.
#[derive(Debug)]
pub enum ItemKind {
    Use(ItemUse),
    Fn(ItemFn),
    Impl(ItemImpl),
    /// Any other item; the analyses do not look into it.
    Other,
}

/// An item with the attributes written above it.
#[derive(Debug)]
pub struct Item {
    pub attribute_list: Vec<AttributeDecl>,
    pub value: ItemKind,
}

/// A parsed source file.
#[derive(Debug)]
pub struct Module {
    pub path: String,
    pub items: Vec<Item>,
}

} // verus!
