//! The traversal engine.
//!
//! A module is laid out once as the sequence of steps a depth-first walk
//! takes through it.  A detector is then driven over those steps, with the
//! context of each step (the enclosing implementation, function and blocks)
//! kept for it.  An analysis that needs a second pass is driven over the same
//! steps again.

use vstd::prelude::*;
use crate::ast::{
    AsmBlock, CodeBlock, ElseBranch, Expr, ExprArrayDescriptor, ExprKind, ExprStructField,
    ExprTupleDescriptor, IfCondition, IfExpr, Item, ItemFn, ItemImpl, ItemImplItem, ItemKind,
    ItemUse, MatchBranch, MatchBranchKind, Module, Punctuated, Span, Statement, StatementLet,
};
use crate::report::{Error, ErrorView, FindingView, Project, SourceFile};
use crate::utils::fold_punctuated;

verus! {

/// One step of a walk through a module.
#[derive(Debug)]
pub enum Node<'a> {
    Use(&'a ItemUse),
    EnterImpl(&'a ItemImpl),
    LeaveImpl(&'a ItemImpl),
    EnterFn(&'a ItemFn),
    LeaveFn(&'a ItemFn),
    EnterBlock(Span),
    LeaveBlock(Span),
    Statement(&'a Statement),
    StatementLet(&'a StatementLet),
    Expr(&'a Expr),
    AsmBlock(&'a AsmBlock),
}

/// The steps through an expression: the expression itself, then its parts
/// from left to right.  Patterns, the path of a struct expression and the
/// target of an assignment hold no steps.
pub open spec fn expr_nodes<'a>(expr: &'a Expr) -> Seq<Node<'a>>
    decreases expr, 0nat,
{
    seq![Node::Expr(expr)] + match &expr.kind {
        ExprKind::Error => Seq::empty(),
        ExprKind::Path(_) => Seq::empty(),
        ExprKind::Literal => Seq::empty(),
        ExprKind::AbiCast { address } => expr_nodes(&**address),
        ExprKind::Struct { fields, .. } => fields_nodes(fields, 0),
        ExprKind::Tuple(ExprTupleDescriptor::Nil) => Seq::empty(),
        ExprKind::Tuple(ExprTupleDescriptor::Cons { head, tail }) => expr_nodes(&**head)
            + exprs_nodes(tail, 0),
        ExprKind::Parens(inner) => expr_nodes(&**inner),
        ExprKind::Block(block) => block_nodes(block),
        ExprKind::Array(ExprArrayDescriptor::Sequence(sequence)) => exprs_nodes(sequence, 0),
        ExprKind::Array(ExprArrayDescriptor::Repeat { value, length }) => expr_nodes(&**value)
            + expr_nodes(&**length),
        ExprKind::Asm(asm_block) => seq![Node::AsmBlock(asm_block)],
        ExprKind::Return { expr_opt: Some(inner) } => expr_nodes(&**inner),
        ExprKind::Return { expr_opt: None } => Seq::empty(),
        ExprKind::If(if_expr) => if_expr_nodes(if_expr),
        ExprKind::Match { value, branches } => expr_nodes(&**value) + branches_nodes(branches, 0),
        ExprKind::While { condition, block } => expr_nodes(&**condition) + block_nodes(block),
        ExprKind::FuncApp { func, args } => expr_nodes(&**func) + exprs_nodes(args, 0),
        ExprKind::Index { target, arg } => expr_nodes(&**target) + expr_nodes(&**arg),
        ExprKind::MethodCall { target, contract_args_opt, args, .. } => expr_nodes(&**target)
            + (match contract_args_opt {
            Some(contract_args) => fields_nodes(contract_args, 0),
            None => Seq::empty(),
        }) + exprs_nodes(args, 0),
        ExprKind::FieldProjection { target, .. } => expr_nodes(&**target),
        ExprKind::TupleFieldProjection { target } => expr_nodes(&**target),
        ExprKind::Unary { expr: inner, .. } => expr_nodes(&**inner),
        ExprKind::Binary { lhs, rhs, .. } => expr_nodes(&**lhs) + expr_nodes(&**rhs),
        ExprKind::Reassignment { expr: inner, .. } => expr_nodes(&**inner),
        ExprKind::Break => Seq::empty(),
        ExprKind::Continue => Seq::empty(),
    }
}

/// The steps through the values of `exprs` from the `from`-th on.
pub open spec fn exprs_nodes<'a>(exprs: &'a Punctuated<Expr, Span>, from: nat) -> Seq<Node<'a>>
    decreases exprs, exprs.count() - from,
{
    if from >= exprs.count() {
        Seq::empty()
    } else if from < exprs.value_separator_pairs@.len() {
        expr_nodes(&exprs.value_separator_pairs@[from as int].0) + exprs_nodes(exprs, from + 1)
    } else {
        expr_nodes(&*exprs.final_value_opt->0)
    }
}

/// The steps through the values of the struct fields of `fields` from the
/// `from`-th on; a field written in shorthand holds none.
pub open spec fn fields_nodes<'a>(fields: &'a Punctuated<ExprStructField, Span>, from: nat) -> Seq<
    Node<'a>,
>
    decreases fields, fields.count() - from,
{
    if from >= fields.count() {
        Seq::empty()
    } else if from < fields.value_separator_pairs@.len() {
        (match &fields.value_separator_pairs@[from as int].0.expr_opt {
            Some(value) => expr_nodes(&**value),
            None => Seq::empty(),
        }) + fields_nodes(fields, from + 1)
    } else {
        match &(*fields.final_value_opt->0).expr_opt {
            Some(value) => expr_nodes(&**value),
            None => Seq::empty(),
        }
    }
}

/// The steps through the statements from the `from`-th on: each statement,
/// then for a `let` the binding and its value, for an expression statement
/// the expression.
pub open spec fn statements_nodes<'a>(statements: &'a Vec<Statement>, from: nat) -> Seq<Node<'a>>
    decreases statements, statements@.len() - from,
{
    if from >= statements@.len() {
        Seq::empty()
    } else {
        seq![Node::Statement(&statements@[from as int])] + (match &statements@[from as int] {
            Statement::Let(statement_let) => seq![Node::StatementLet(statement_let)] + expr_nodes(
                &statement_let.expr,
            ),
            Statement::Item => Seq::empty(),
            Statement::Expr { expr } => expr_nodes(expr),
            Statement::Error => Seq::empty(),
        }) + statements_nodes(statements, from + 1)
    }
}

/// The steps through a block: entering it, its statements, its final
/// expression, leaving it.
pub open spec fn block_nodes<'a>(block: &'a CodeBlock) -> Seq<Node<'a>>
    decreases block, 0nat,
{
    seq![Node::EnterBlock(block.span)] + statements_nodes(&block.statements, 0) + (
    match &block.final_expr_opt {
        Some(expr) => expr_nodes(&**expr),
        None => Seq::empty(),
    }) + seq![Node::LeaveBlock(block.span)]
}

/// The steps through an `if`: its condition, its first block, then whatever
/// follows `else`.
pub open spec fn if_expr_nodes<'a>(if_expr: &'a IfExpr) -> Seq<Node<'a>>
    decreases if_expr, 0nat,
{
    (match &if_expr.condition {
        IfCondition::Expr(condition) => expr_nodes(&**condition),
        IfCondition::Let { rhs, .. } => expr_nodes(&**rhs),
    }) + block_nodes(&if_expr.then_block) + (match &if_expr.else_opt {
        Some(ElseBranch::ElseIf(else_if_expr)) => if_expr_nodes(&**else_if_expr),
        Some(ElseBranch::Else(else_block)) => block_nodes(else_block),
        None => Seq::empty(),
    })
}

/// The steps through the arms of a match from the `from`-th on.
pub open spec fn branches_nodes<'a>(branches: &'a Vec<MatchBranch>, from: nat) -> Seq<Node<'a>>
    decreases branches, branches@.len() - from,
{
    if from >= branches@.len() {
        Seq::empty()
    } else {
        (match &branches@[from as int].kind {
            MatchBranchKind::Block { block } => block_nodes(block),
            MatchBranchKind::Expr { expr } => expr_nodes(expr),
        }) + branches_nodes(branches, from + 1)
    }
}

/// The steps through a function: entering it, its body, leaving it.
pub open spec fn fn_nodes<'a>(item_fn: &'a ItemFn) -> Seq<Node<'a>> {
    seq![Node::EnterFn(item_fn)] + block_nodes(&item_fn.body) + seq![Node::LeaveFn(item_fn)]
}

/// The steps through the members of an implementation from the `from`-th on.
pub open spec fn impl_items_nodes<'a>(contents: &'a Vec<ItemImplItem>, from: nat) -> Seq<Node<'a>>
    decreases contents@.len() - from,
{
    if from >= contents@.len() {
        Seq::empty()
    } else {
        (match &contents@[from as int] {
            ItemImplItem::Fn(item_fn) => fn_nodes(item_fn),
            ItemImplItem::Other => Seq::empty(),
        }) + impl_items_nodes(contents, from + 1)
    }
}

/// The steps through an implementation: entering it, its functions, leaving
/// it.
pub open spec fn impl_nodes<'a>(item_impl: &'a ItemImpl) -> Seq<Node<'a>> {
    seq![Node::EnterImpl(item_impl)] + impl_items_nodes(&item_impl.contents, 0)
        + seq![Node::LeaveImpl(item_impl)]
}

/// The steps through the items from the `from`-th on.
pub open spec fn items_nodes<'a>(items: &'a Vec<Item>, from: nat) -> Seq<Node<'a>>
    decreases items@.len() - from,
{
    if from >= items@.len() {
        Seq::empty()
    } else {
        (match &items@[from as int].value {
            ItemKind::Use(item_use) => seq![Node::Use(item_use)],
            ItemKind::Fn(item_fn) => fn_nodes(item_fn),
            ItemKind::Impl(item_impl) => impl_nodes(item_impl),
            ItemKind::Other => Seq::empty(),
        }) + items_nodes(items, from + 1)
    }
}

/// The steps of a walk through a module, in order.
pub open spec fn module_nodes<'a>(module: &'a Module) -> Seq<Node<'a>> {
    items_nodes(&module.items, 0)
}

fn walk_exprs<'a>(exprs: &'a Punctuated<Expr, Span>, out: &mut Vec<Node<'a>>)
    ensures
        final(out)@ == old(out)@ + exprs_nodes(exprs, 0),
    decreases exprs,
{
    let values = fold_punctuated(exprs);
    let n: usize = values.len();
    let mut i: usize = 0;
    while i < n
        invariant
            n == values@.len(),
            n == exprs.count(),
            i <= n,
            forall|k: int| 0 <= k < n ==> *#[trigger] values@[k] == exprs.value(k),
            out@ + exprs_nodes(exprs, i as nat) == old(out)@ + exprs_nodes(exprs, 0),
        decreases n - i,
    {
        let ghost before = out@;
        walk_expr(values[i], out);
        assert(out@ + exprs_nodes(exprs, (i + 1) as nat) =~= before + exprs_nodes(exprs, i as nat));
        i += 1;
    }
    assert(out@ + Seq::<Node<'a>>::empty() =~= out@);
}

fn walk_fields<'a>(fields: &'a Punctuated<ExprStructField, Span>, out: &mut Vec<Node<'a>>)
    ensures
        final(out)@ == old(out)@ + fields_nodes(fields, 0),
    decreases fields,
{
    let values = fold_punctuated(fields);
    let n: usize = values.len();
    let mut i: usize = 0;
    while i < n
        invariant
            n == values@.len(),
            n == fields.count(),
            i <= n,
            forall|k: int| 0 <= k < n ==> *#[trigger] values@[k] == fields.value(k),
            out@ + fields_nodes(fields, i as nat) == old(out)@ + fields_nodes(fields, 0),
        decreases n - i,
    {
        let ghost before = out@;
        if let Some(value) = &values[i].expr_opt {
            walk_expr(value, out);
        }
        assert(out@ + fields_nodes(fields, (i + 1) as nat) =~= before + fields_nodes(
            fields,
            i as nat,
        ));
        i += 1;
    }
    assert(out@ + Seq::<Node<'a>>::empty() =~= out@);
}

fn walk_block<'a>(block: &'a CodeBlock, out: &mut Vec<Node<'a>>)
    ensures
        final(out)@ == old(out)@ + block_nodes(block),
    decreases block,
{
    out.push(Node::EnterBlock(block.span));
    let ghost entered = out@;
    let n: usize = block.statements.len();
    let mut i: usize = 0;
    while i < n
        invariant
            n == block.statements@.len(),
            i <= n,
            out@ + statements_nodes(&block.statements, i as nat) == entered + statements_nodes(
                &block.statements,
                0,
            ),
        decreases n - i,
    {
        let ghost before = out@;
        let statement = &block.statements[i];
        out.push(Node::Statement(statement));
        match statement {
            Statement::Let(statement_let) => {
                out.push(Node::StatementLet(statement_let));
                walk_expr(&statement_let.expr, out);
            },
            Statement::Item => {},
            Statement::Expr { expr } => {
                walk_expr(expr, out);
            },
            Statement::Error => {},
        }
        assert(out@ + statements_nodes(&block.statements, (i + 1) as nat) =~= before
            + statements_nodes(&block.statements, i as nat));
        i += 1;
    }
    assert(out@ =~= entered + statements_nodes(&block.statements, 0));
    if let Some(expr) = &block.final_expr_opt {
        walk_expr(expr, out);
    }
    out.push(Node::LeaveBlock(block.span));
    assert(out@ =~= old(out)@ + block_nodes(block));
}

fn walk_if_expr<'a>(if_expr: &'a IfExpr, out: &mut Vec<Node<'a>>)
    ensures
        final(out)@ == old(out)@ + if_expr_nodes(if_expr),
    decreases if_expr,
{
    match &if_expr.condition {
        IfCondition::Expr(condition) => {
            walk_expr(condition, out);
        },
        IfCondition::Let { rhs, .. } => {
            walk_expr(rhs, out);
        },
    }
    walk_block(&if_expr.then_block, out);
    match &if_expr.else_opt {
        Some(ElseBranch::ElseIf(else_if_expr)) => {
            walk_if_expr(else_if_expr, out);
        },
        Some(ElseBranch::Else(else_block)) => {
            walk_block(else_block, out);
        },
        None => {},
    }
    assert(out@ =~= old(out)@ + if_expr_nodes(if_expr));
}

fn walk_branches<'a>(branches: &'a Vec<MatchBranch>, out: &mut Vec<Node<'a>>)
    ensures
        final(out)@ == old(out)@ + branches_nodes(branches, 0),
    decreases branches,
{
    let n: usize = branches.len();
    let mut i: usize = 0;
    while i < n
        invariant
            n == branches@.len(),
            i <= n,
            out@ + branches_nodes(branches, i as nat) == old(out)@ + branches_nodes(branches, 0),
        decreases n - i,
    {
        let ghost before = out@;
        match &branches[i].kind {
            MatchBranchKind::Block { block } => {
                walk_block(block, out);
            },
            MatchBranchKind::Expr { expr } => {
                walk_expr(expr, out);
            },
        }
        assert(out@ + branches_nodes(branches, (i + 1) as nat) =~= before + branches_nodes(
            branches,
            i as nat,
        ));
        i += 1;
    }
    assert(out@ + Seq::<Node<'a>>::empty() =~= out@);
}

/// Appends the steps through an expression to `out`.
pub fn walk_expr<'a>(expr: &'a Expr, out: &mut Vec<Node<'a>>)
    ensures
        final(out)@ == old(out)@ + expr_nodes(expr),
    decreases expr,
{
    out.push(Node::Expr(expr));
    match &expr.kind {
        ExprKind::Error => {},
        ExprKind::Path(_) => {},
        ExprKind::Literal => {},
        ExprKind::AbiCast { address } => {
            walk_expr(address, out);
        },
        ExprKind::Struct { fields, .. } => {
            walk_fields(fields, out);
        },
        ExprKind::Tuple(ExprTupleDescriptor::Nil) => {},
        ExprKind::Tuple(ExprTupleDescriptor::Cons { head, tail }) => {
            walk_expr(head, out);
            walk_exprs(tail, out);
        },
        ExprKind::Parens(inner) => {
            walk_expr(inner, out);
        },
        ExprKind::Block(block) => {
            walk_block(block, out);
        },
        ExprKind::Array(ExprArrayDescriptor::Sequence(sequence)) => {
            walk_exprs(sequence, out);
        },
        ExprKind::Array(ExprArrayDescriptor::Repeat { value, length }) => {
            walk_expr(value, out);
            walk_expr(length, out);
        },
        ExprKind::Asm(asm_block) => {
            out.push(Node::AsmBlock(asm_block));
        },
        ExprKind::Return { expr_opt: Some(inner) } => {
            walk_expr(inner, out);
        },
        ExprKind::Return { expr_opt: None } => {},
        ExprKind::If(if_expr) => {
            walk_if_expr(if_expr, out);
        },
        ExprKind::Match { value, branches } => {
            walk_expr(value, out);
            walk_branches(branches, out);
        },
        ExprKind::While { condition, block } => {
            walk_expr(condition, out);
            walk_block(block, out);
        },
        ExprKind::FuncApp { func, args } => {
            walk_expr(func, out);
            walk_exprs(args, out);
        },
        ExprKind::Index { target, arg } => {
            walk_expr(target, out);
            walk_expr(arg, out);
        },
        ExprKind::MethodCall { target, contract_args_opt, args, .. } => {
            walk_expr(target, out);
            if let Some(contract_args) = contract_args_opt {
                walk_fields(contract_args, out);
            }
            walk_exprs(args, out);
        },
        ExprKind::FieldProjection { target, .. } => {
            walk_expr(target, out);
        },
        ExprKind::TupleFieldProjection { target } => {
            walk_expr(target, out);
        },
        ExprKind::Unary { expr: inner, .. } => {
            walk_expr(inner, out);
        },
        ExprKind::Binary { lhs, rhs, .. } => {
            walk_expr(lhs, out);
            walk_expr(rhs, out);
        },
        ExprKind::Reassignment { expr: inner, .. } => {
            walk_expr(inner, out);
        },
        ExprKind::Break => {},
        ExprKind::Continue => {},
    }
    assert(out@ =~= old(out)@ + expr_nodes(expr));
}

fn walk_fn<'a>(item_fn: &'a ItemFn, out: &mut Vec<Node<'a>>)
    ensures
        final(out)@ == old(out)@ + fn_nodes(item_fn),
{
    out.push(Node::EnterFn(item_fn));
    walk_block(&item_fn.body, out);
    out.push(Node::LeaveFn(item_fn));
    assert(out@ =~= old(out)@ + fn_nodes(item_fn));
}

fn walk_impl<'a>(item_impl: &'a ItemImpl, out: &mut Vec<Node<'a>>)
    ensures
        final(out)@ == old(out)@ + impl_nodes(item_impl),
{
    out.push(Node::EnterImpl(item_impl));
    let ghost entered = out@;
    let n: usize = item_impl.contents.len();
    let mut i: usize = 0;
    while i < n
        invariant
            n == item_impl.contents@.len(),
            i <= n,
            out@ + impl_items_nodes(&item_impl.contents, i as nat) == entered + impl_items_nodes(
                &item_impl.contents,
                0,
            ),
        decreases n - i,
    {
        let ghost before = out@;
        if let ItemImplItem::Fn(item_fn) = &item_impl.contents[i] {
            walk_fn(item_fn, out);
        }
        assert(out@ + impl_items_nodes(&item_impl.contents, (i + 1) as nat) =~= before
            + impl_items_nodes(&item_impl.contents, i as nat));
        i += 1;
    }
    assert(out@ =~= entered + impl_items_nodes(&item_impl.contents, 0));
    out.push(Node::LeaveImpl(item_impl));
    assert(out@ =~= old(out)@ + impl_nodes(item_impl));
}

/// Lays a module out as the steps of a depth-first walk through it.
pub fn walk_module<'a>(module: &'a Module) -> (nodes: Vec<Node<'a>>)
    ensures
        nodes@ == module_nodes(module),
{
    let mut out: Vec<Node<'a>> = Vec::new();
    let n: usize = module.items.len();
    let mut i: usize = 0;
    while i < n
        invariant
            n == module.items@.len(),
            i <= n,
            out@ + items_nodes(&module.items, i as nat) == items_nodes(&module.items, 0),
        decreases n - i,
    {
        let ghost before = out@;
        match &module.items[i].value {
            ItemKind::Use(item_use) => {
                out.push(Node::Use(item_use));
            },
            ItemKind::Fn(item_fn) => {
                walk_fn(item_fn, &mut out);
            },
            ItemKind::Impl(item_impl) => {
                walk_impl(item_impl, &mut out);
            },
            ItemKind::Other => {},
        }
        assert(out@ + items_nodes(&module.items, (i + 1) as nat) =~= before + items_nodes(
            &module.items,
            i as nat,
        ));
        i += 1;
    }
    assert(out@ + Seq::<Node<'a>>::empty() =~= out@);
    out
}

/// Where a step stands: the module, and the implementation, the function and
/// the blocks that enclose it, the blocks outermost first.
#[derive(Debug)]
pub struct Context<'a> {
    pub module: &'a Module,
    pub item_impl: Option<&'a ItemImpl>,
    pub item_fn: Option<&'a ItemFn>,
    pub blocks: Vec<Span>,
}

/// What encloses a step.
pub struct Scope<'a> {
    pub item_impl: Option<&'a ItemImpl>,
    pub item_fn: Option<&'a ItemFn>,
    pub blocks: Seq<Span>,
}

impl<'a> View for Context<'a> {
    type V = Scope<'a>;

    open spec fn view(&self) -> Scope<'a> {
        Scope { item_impl: self.item_impl, item_fn: self.item_fn, blocks: self.blocks@ }
    }
}

/// The scope at the top of a module.
pub open spec fn top_scope<'a>() -> Scope<'a> {
    Scope { item_impl: None, item_fn: None, blocks: Seq::empty() }
}

/// The scope in which a step is shown to a visitor: an implementation, a
/// function or a block that is being entered already encloses its own step.
pub open spec fn scope_at<'a>(scope: Scope<'a>, node: Node<'a>) -> Scope<'a> {
    match node {
        Node::EnterImpl(item_impl) => Scope {
            item_impl: Some(item_impl),
            item_fn: scope.item_fn,
            blocks: scope.blocks,
        },
        Node::EnterFn(item_fn) => Scope {
            item_impl: scope.item_impl,
            item_fn: Some(item_fn),
            blocks: scope.blocks,
        },
        Node::EnterBlock(span) => Scope {
            item_impl: scope.item_impl,
            item_fn: scope.item_fn,
            blocks: scope.blocks.push(span),
        },
        _ => scope,
    }
}

/// The scope of the step that follows: what was left no longer encloses it.
pub open spec fn scope_after<'a>(scope: Scope<'a>, node: Node<'a>) -> Scope<'a> {
    match node {
        Node::LeaveImpl(_) => Scope { item_impl: None, item_fn: scope.item_fn, blocks: scope.blocks },
        Node::LeaveFn(_) => Scope { item_impl: scope.item_impl, item_fn: None, blocks: scope.blocks },
        Node::LeaveBlock(_) => Scope {
            item_impl: scope.item_impl,
            item_fn: scope.item_fn,
            blocks: if scope.blocks.len() > 0 {
                scope.blocks.drop_last()
            } else {
                scope.blocks
            },
        },
        _ => scope_at(scope, node),
    }
}

/// What a visitor made of one or more steps: the state it is left in, the
/// findings it added to the report, and the error that stopped it, if one did.
pub struct Outcome<S> {
    pub state: S,
    pub findings: Seq<FindingView>,
    pub error: Option<ErrorView>,
}

/// The outcome of doing nothing.
pub open spec fn unchanged<S>(state: S) -> Outcome<S> {
    Outcome { state, findings: Seq::empty(), error: None }
}

/// The outcome `next` of later steps, seen from before the earlier steps that
/// made `findings`.
pub open spec fn preceded<S>(findings: Seq<FindingView>, next: Outcome<S>) -> Outcome<S> {
    Outcome { state: next.state, findings: findings + next.findings, error: next.error }
}

/// Whether a call that left the visitor in `state`, turned the project
/// `before` into `after` and returned `result` had the given outcome: the
/// sources are untouched, the findings were added to the report in order, and
/// the call failed exactly with the outcome's error.
pub open spec fn follows<S>(
    outcome: Outcome<S>,
    state: S,
    before: Project,
    after: Project,
    result: Result<(), Error>,
) -> bool {
    &&& state == outcome.state
    &&& after.files == before.files
    &&& after.report@ == before.report@ + outcome.findings
    &&& match result {
        Ok(_) => outcome.error is None,
        Err(error) => outcome.error == Some(error@),
    }
}

/// An analysis that is driven over the steps of a walk.  What it does at each
/// step is given as a function of its state, so that what a whole walk does
/// is a function of the module.
pub trait AstVisitor: Sized {
    /// What the visitor knows.
    type State;

    /// The invariant of the visitor's data.
    spec fn wf(&self) -> bool;

    /// What the visitor knows at present.
    spec fn state(&self) -> Self::State;

    /// What the visitor does when a module is entered.
    spec fn module_entered(state: Self::State, files: Seq<SourceFile>, module: &Module) -> Outcome<
        Self::State,
    >;

    /// What the visitor does at one step inside a module.
    spec fn visited<'a>(
        state: Self::State,
        files: Seq<SourceFile>,
        module: &'a Module,
        scope: Scope<'a>,
        node: Node<'a>,
    ) -> Outcome<Self::State>;

    /// What the visitor does when a module is left.
    spec fn module_left(state: Self::State, files: Seq<SourceFile>, module: &Module) -> Outcome<
        Self::State,
    >;

    fn visit_module(&mut self, module: &Module, project: &mut Project) -> (result: Result<
        (),
        Error,
    >)
        requires
            old(self).wf(),
        ensures
            final(self).wf(),
            follows(
                Self::module_entered(old(self).state(), old(project).files@, module),
                final(self).state(),
                *old(project),
                *final(project),
                result,
            ),
    ;

    fn visit<'a>(&mut self, context: &Context<'a>, node: &Node<'a>, project: &mut Project) -> (result:
        Result<(), Error>)
        requires
            old(self).wf(),
        ensures
            final(self).wf(),
            follows(
                Self::visited(
                    old(self).state(),
                    old(project).files@,
                    context.module,
                    context@,
                    *node,
                ),
                final(self).state(),
                *old(project),
                *final(project),
                result,
            ),
    ;

    fn leave_module(&mut self, module: &Module, project: &mut Project) -> (result: Result<
        (),
        Error,
    >)
        requires
            old(self).wf(),
        ensures
            final(self).wf(),
            follows(
                Self::module_left(old(self).state(), old(project).files@, module),
                final(self).state(),
                *old(project),
                *final(project),
                result,
            ),
    ;
}

/// What a visitor makes of the steps of `nodes` from the `from`-th on, begun in
/// `state` with `scope` enclosing the first of them.  The first error ends it.
pub open spec fn driven<'a, V: AstVisitor>(
    state: V::State,
    files: Seq<SourceFile>,
    module: &'a Module,
    scope: Scope<'a>,
    nodes: Seq<Node<'a>>,
    from: nat,
) -> Outcome<V::State>
    decreases nodes.len() - from,
{
    if from >= nodes.len() {
        unchanged(state)
    } else {
        let node = nodes[from as int];
        let step = V::visited(state, files, module, scope_at(scope, node), node);
        if step.error is Some {
            step
        } else {
            preceded(
                step.findings,
                driven::<V>(step.state, files, module, scope_after(scope, node), nodes, from + 1),
            )
        }
    }
}

/// What a visitor makes of a whole module: entering it, the steps of the walk
/// through it, leaving it.
pub open spec fn analysis<V: AstVisitor>(state: V::State, files: Seq<SourceFile>, module: &Module) -> Outcome<
    V::State,
> {
    let entered = V::module_entered(state, files, module);
    if entered.error is Some {
        entered
    } else {
        let walked = preceded(
            entered.findings,
            driven::<V>(entered.state, files, module, top_scope(), module_nodes(module), 0),
        );
        if walked.error is Some {
            walked
        } else {
            preceded(walked.findings, V::module_left(walked.state, files, module))
        }
    }
}

/// Drives a visitor over the steps of a walk through `module`, keeping the
/// scope of each step.  Stops at the first error.
pub fn drive<'a, V: AstVisitor>(
    visitor: &mut V,
    module: &'a Module,
    nodes: &Vec<Node<'a>>,
    project: &mut Project,
) -> (result: Result<(), Error>)
    requires
        old(visitor).wf(),
    ensures
        final(visitor).wf(),
        follows(
            driven::<V>(old(visitor).state(), old(project).files@, module, top_scope(), nodes@, 0),
            final(visitor).state(),
            *old(project),
            *final(project),
            result,
        ),
{
    let mut context = Context { module, item_impl: None, item_fn: None, blocks: Vec::new() };
    let ghost files = project.files@;
    let ghost total = driven::<V>(visitor.state(), files, module, top_scope(), nodes@, 0);
    let ghost mut found: Seq<FindingView> = Seq::empty();
    let n: usize = nodes.len();
    let mut i: usize = 0;
    let mut failure: Option<Error> = None;
    assert(context@ == top_scope::<'a>());
    assert(project.report@ =~= old(project).report@ + found);
    while i < n && failure.is_none()
        invariant
            n == nodes@.len(),
            i <= n,
            visitor.wf(),
            context.module == module,
            project.files == old(project).files,
            files == project.files@,
            failure is None ==> project.report@ == old(project).report@ + found && preceded(
                found,
                driven::<V>(visitor.state(), files, module, context@, nodes@, i as nat),
            ) == total,
            failure matches Some(error) ==> follows(
                total,
                visitor.state(),
                *old(project),
                *project,
                Err::<(), Error>(error),
            ),
        decreases n - i, (if failure is None { 1nat } else { 0nat }),
    {
        let node = &nodes[i];
        let ghost scope = context@;
        let ghost state = visitor.state();
        match node {
            Node::EnterImpl(item_impl) => {
                context.item_impl = Some(*item_impl);
            },
            Node::EnterFn(item_fn) => {
                context.item_fn = Some(*item_fn);
            },
            Node::EnterBlock(span) => {
                context.blocks.push(*span);
            },
            _ => {},
        }
        assert(context@ == scope_at(scope, *node));
        let ghost step = V::visited(state, files, module, context@, *node);
        let result = visitor.visit(&context, node, project);
        proof {
            assert(project.report@ =~= old(project).report@ + (found + step.findings));
            assert(preceded(found, step).findings =~= found + step.findings);
        }
        match result {
            Err(error) => {
                assert(preceded(found, step) == total);
                failure = Some(error);
            },
            Ok(_) => {
                match node {
                    Node::LeaveImpl(_) => {
                        context.item_impl = None;
                    },
                    Node::LeaveFn(_) => {
                        context.item_fn = None;
                    },
                    Node::LeaveBlock(_) => {
                        if context.blocks.len() > 0 {
                            context.blocks.pop();
                        }
                    },
                    _ => {},
                }
                assert(context@ == scope_after(scope, *node));
                proof {
                    let rest = driven::<V>(
                        step.state,
                        files,
                        module,
                        context@,
                        nodes@,
                        (i + 1) as nat,
                    );
                    assert(preceded(found + step.findings, rest).findings =~= preceded(
                        found,
                        preceded(step.findings, rest),
                    ).findings);
                    found = found + step.findings;
                }
                i += 1;
            },
        }
    }
    match failure {
        Some(error) => Err(error),
        None => {
            assert(found + Seq::<FindingView>::empty() =~= found);
            Ok(())
        },
    }
}

/// Runs a visitor over a module: the module is entered, walked through and
/// left.  Stops at the first error.
pub fn visit_module_with<V: AstVisitor>(visitor: &mut V, module: &Module, project: &mut Project) -> (result:
    Result<(), Error>)
    requires
        old(visitor).wf(),
    ensures
        final(visitor).wf(),
        follows(
            analysis::<V>(old(visitor).state(), old(project).files@, module),
            final(visitor).state(),
            *old(project),
            *final(project),
            result,
        ),
{
    let ghost files = project.files@;
    let ghost entered = V::module_entered(visitor.state(), files, module);
    if let Err(error) = visitor.visit_module(module, project) {
        return Err(error);
    }
    let nodes = walk_module(module);
    let ghost walked = driven::<V>(entered.state, files, module, top_scope(), nodes@, 0);
    if let Err(error) = drive(visitor, module, &nodes, project) {
        assert(project.report@ =~= old(project).report@ + (entered.findings + walked.findings));
        return Err(error);
    }
    let ghost left = V::module_left(walked.state, files, module);
    let result = visitor.leave_module(module, project);
    assert(project.report@ =~= old(project).report@ + (entered.findings + walked.findings
        + left.findings));
    result
}

/// What every step keeps, the whole walk keeps: if each of the steps, in
/// whatever scope, takes a state for which `kept` holds to one for which it
/// holds, then so does the run of them, whether it ends or fails.
pub proof fn lemma_driven_keeps<'a, V: AstVisitor>(
    kept: spec_fn(V::State) -> bool,
    state: V::State,
    files: Seq<SourceFile>,
    module: &'a Module,
    scope: Scope<'a>,
    nodes: Seq<Node<'a>>,
    from: nat,
)
    requires
        kept(state),
        forall|before: V::State, at: Scope<'a>, k: int|
            from <= k < nodes.len() && kept(before) ==> kept(
                #[trigger] V::visited(before, files, module, at, nodes[k]).state,
            ),
    ensures
        kept(driven::<V>(state, files, module, scope, nodes, from).state),
    decreases nodes.len() - from,
{
    if from < nodes.len() {
        let node = nodes[from as int];
        let step = V::visited(state, files, module, scope_at(scope, node), node);
        if step.error is None {
            lemma_driven_keeps::<V>(
                kept,
                step.state,
                files,
                module,
                scope_after(scope, node),
                nodes,
                from + 1,
            );
        }
    }
}

/// What holds of the findings of every step holds of the findings of the
/// whole walk: if each finding that one of the steps makes from a state for
/// which `kept` holds is `good`, and each step keeps `kept`, then every
/// finding of the run of them is `good`.
pub proof fn lemma_driven_findings<'a, V: AstVisitor>(
    kept: spec_fn(V::State) -> bool,
    good: spec_fn(FindingView) -> bool,
    state: V::State,
    files: Seq<SourceFile>,
    module: &'a Module,
    scope: Scope<'a>,
    nodes: Seq<Node<'a>>,
    from: nat,
)
    requires
        kept(state),
        forall|before: V::State, at: Scope<'a>, k: int|
            from <= k < nodes.len() && kept(before) ==> kept(
                #[trigger] V::visited(before, files, module, at, nodes[k]).state,
            ),
        forall|before: V::State, at: Scope<'a>, k: int, j: int|
            from <= k < nodes.len() && kept(before) && 0 <= j < V::visited(
                before,
                files,
                module,
                at,
                nodes[k],
            ).findings.len() ==> good(
                #[trigger] V::visited(before, files, module, at, nodes[k]).findings[j],
            ),
    ensures
        forall|j: int|
            0 <= j < driven::<V>(state, files, module, scope, nodes, from).findings.len() ==> good(
                #[trigger] driven::<V>(state, files, module, scope, nodes, from).findings[j],
            ),
    decreases nodes.len() - from,
{
    if from < nodes.len() {
        let node = nodes[from as int];
        let step = V::visited(state, files, module, scope_at(scope, node), node);
        assert forall|j: int| 0 <= j < step.findings.len() implies good(
            #[trigger] step.findings[j],
        ) by {
            assert(good(
                V::visited(state, files, module, scope_at(scope, node), nodes[from as int]).findings[j],
            ));
        }
        if step.error is None {
            let rest = driven::<V>(
                step.state,
                files,
                module,
                scope_after(scope, node),
                nodes,
                from + 1,
            );
            lemma_driven_findings::<V>(
                kept,
                good,
                step.state,
                files,
                module,
                scope_after(scope, node),
                nodes,
                from + 1,
            );
            let all = driven::<V>(state, files, module, scope, nodes, from).findings;
            assert(all == step.findings + rest.findings);
            assert forall|j: int| 0 <= j < all.len() implies good(#[trigger] all[j]) by {
                if j < step.findings.len() {
                    assert(all[j] == step.findings[j]);
                } else {
                    assert(all[j] == rest.findings[j - step.findings.len()]);
                }
            }
        }
    }
}

/// A walk none of whose steps can fail does not fail: if no step fails from a
/// state for which `kept` holds, and each step keeps `kept`, then the run of
/// them ends without an error.
pub proof fn lemma_driven_succeeds<'a, V: AstVisitor>(
    kept: spec_fn(V::State) -> bool,
    state: V::State,
    files: Seq<SourceFile>,
    module: &'a Module,
    scope: Scope<'a>,
    nodes: Seq<Node<'a>>,
    from: nat,
)
    requires
        kept(state),
        forall|before: V::State, at: Scope<'a>, k: int|
            from <= k < nodes.len() && kept(before) ==> kept(
                #[trigger] V::visited(before, files, module, at, nodes[k]).state,
            ) && V::visited(before, files, module, at, nodes[k]).error is None,
    ensures
        driven::<V>(state, files, module, scope, nodes, from).error is None,
    decreases nodes.len() - from,
{
    if from < nodes.len() {
        let node = nodes[from as int];
        let step = V::visited(state, files, module, scope_at(scope, node), nodes[from as int]);
        lemma_driven_succeeds::<V>(
            kept,
            step.state,
            files,
            module,
            scope_after(scope, node),
            nodes,
            from + 1,
        );
    }
}

} // verus!
