//! What holds of every walk: each step is shown in the scope that encloses
//! it, and what a walk enters it leaves again.

use vstd::prelude::*;
use crate::ast::{
    CodeBlock, ElseBranch, Expr, ExprArrayDescriptor, ExprKind, ExprStructField,
    ExprTupleDescriptor, IfCondition, IfExpr, Item, ItemFn, ItemImpl, ItemImplItem, ItemKind,
    MatchBranch, MatchBranchKind, Module, Punctuated, Span, Statement,
};
use crate::report::SourceFile;
use crate::visitor::{
    block_nodes, branches_nodes, driven, expr_nodes, exprs_nodes, fields_nodes, fn_nodes,
    if_expr_nodes, impl_items_nodes, impl_nodes, items_nodes, module_nodes, scope_after, scope_at,
    statements_nodes, top_scope, AstVisitor, Node, Scope,
};

verus! {

/// Whether `at` is a scope a step may be shown in: a `use`, an implementation
/// and a function stand outside any block, a function not inside another; a
/// block is the innermost of its own scope; and statements, expressions and
/// assembly blocks stand inside a block of a function.
pub open spec fn fits<'a>(at: Scope<'a>, node: Node<'a>) -> bool {
    match node {
        Node::Use(_) => at.item_impl is None && at.item_fn is None && at.blocks.len() == 0,
        Node::EnterImpl(item_impl) => at.item_impl == Some(item_impl) && at.item_fn is None
            && at.blocks.len() == 0,
        Node::LeaveImpl(item_impl) => at.item_impl == Some(item_impl) && at.item_fn is None
            && at.blocks.len() == 0,
        Node::EnterFn(item_fn) => at.item_fn == Some(item_fn) && at.blocks.len() == 0,
        Node::LeaveFn(item_fn) => at.item_fn == Some(item_fn) && at.blocks.len() == 0,
        Node::EnterBlock(span) => at.item_fn is Some && at.blocks.len() > 0 && at.blocks.last()
            == span,
        Node::LeaveBlock(span) => at.item_fn is Some && at.blocks.len() > 0 && at.blocks.last()
            == span,
        Node::Statement(_) => at.item_fn is Some && at.blocks.len() > 0,
        Node::StatementLet(_) => at.item_fn is Some && at.blocks.len() > 0,
        Node::Expr(_) => at.item_fn is Some && at.blocks.len() > 0,
        Node::AsmBlock(_) => at.item_fn is Some && at.blocks.len() > 0,
    }
}

/// The scope after the steps of `nodes` from the `from`-th on, begun in
/// `scope`.
pub open spec fn scope_from<'a>(scope: Scope<'a>, nodes: Seq<Node<'a>>, from: nat) -> Scope<'a>
    decreases nodes.len() - from,
{
    if from >= nodes.len() {
        scope
    } else {
        scope_from(scope_after(scope, nodes[from as int]), nodes, from + 1)
    }
}

/// Whether each of the steps of `nodes` from the `from`-th on, begun in
/// `scope`, is shown in a scope that fits it.
pub open spec fn well_scoped<'a>(scope: Scope<'a>, nodes: Seq<Node<'a>>, from: nat) -> bool
    decreases nodes.len() - from,
{
    from >= nodes.len() || (fits(scope_at(scope, nodes[from as int]), nodes[from as int])
        && well_scoped(scope_after(scope, nodes[from as int]), nodes, from + 1))
}

/// Whether the steps, begun in `scope`, each fit their scope and end in
/// `scope` again.
pub open spec fn enclosed<'a>(scope: Scope<'a>, nodes: Seq<Node<'a>>) -> bool {
    well_scoped(scope, nodes, 0) && scope_from(scope, nodes, 0) == scope
}

proof fn lemma_after_prefix<'a>(scope: Scope<'a>, first: Seq<Node<'a>>, then: Seq<Node<'a>>, from: nat)
    ensures
        scope_from(scope, first + then, first.len() + from) == scope_from(scope, then, from),
        well_scoped(scope, first + then, first.len() + from) == well_scoped(scope, then, from),
    decreases then.len() - from,
{
    if from < then.len() {
        assert((first + then)[first.len() + from as int] == then[from as int]);
        lemma_after_prefix(scope_after(scope, then[from as int]), first, then, from + 1);
    }
}

proof fn lemma_joined<'a>(scope: Scope<'a>, first: Seq<Node<'a>>, then: Seq<Node<'a>>, from: nat)
    requires
        from <= first.len(),
    ensures
        scope_from(scope, first + then, from) == scope_from(
            scope_from(scope, first, from),
            then,
            0,
        ),
        well_scoped(scope, first + then, from) == (well_scoped(scope, first, from) && well_scoped(
            scope_from(scope, first, from),
            then,
            0,
        )),
    decreases first.len() - from,
{
    if from < first.len() {
        assert((first + then)[from as int] == first[from as int]);
        lemma_joined(scope_after(scope, first[from as int]), first, then, from + 1);
    } else {
        lemma_after_prefix(scope, first, then, 0);
    }
}

/// Steps that are enclosed in a scope, followed by steps that are enclosed in
/// it, are enclosed in it.
pub proof fn lemma_enclosed_join<'a>(scope: Scope<'a>, first: Seq<Node<'a>>, then: Seq<Node<'a>>)
    requires
        enclosed(scope, first),
        enclosed(scope, then),
    ensures
        enclosed(scope, first + then),
{
    lemma_joined(scope, first, then, 0);
}

proof fn lemma_one_step<'a>(scope: Scope<'a>, node: Node<'a>)
    ensures
        scope_from(scope, seq![node], 0) == scope_after(scope, node),
        well_scoped(scope, seq![node], 0) == fits(scope_at(scope, node), node),
{
    let nodes = seq![node];
    assert(nodes[0] == node);
    assert(well_scoped(scope_after(scope, node), nodes, 1));
    assert(scope_from(scope_after(scope, node), nodes, 1) == scope_after(scope, node));
}

proof fn lemma_enclosed_one<'a>(scope: Scope<'a>, node: Node<'a>)
    requires
        fits(scope_at(scope, node), node),
        scope_after(scope, node) == scope,
    ensures
        enclosed(scope, seq![node]),
{
    lemma_one_step(scope, node);
}

proof fn lemma_enclosed_none<'a>(scope: Scope<'a>)
    ensures
        enclosed(scope, Seq::<Node<'a>>::empty()),
{
}

/// Steps enclosed in a scope with one more block, between the steps that
/// enter and leave that block, are enclosed in the scope without it.
proof fn lemma_enclosed_in_block<'a>(scope: Scope<'a>, span: Span, inner: Seq<Node<'a>>)
    requires
        scope.item_fn is Some,
        enclosed(scope_at(scope, Node::EnterBlock(span)), inner),
    ensures
        enclosed(scope, seq![Node::EnterBlock(span)] + inner + seq![Node::LeaveBlock(span)]),
{
    let enter = seq![Node::EnterBlock(span)];
    let leave = seq![Node::LeaveBlock(span)];
    let within = scope_at(scope, Node::EnterBlock(span));
    lemma_one_step(scope, Node::EnterBlock(span));
    lemma_joined(scope, enter, inner, 0);
    lemma_one_step(within, Node::LeaveBlock(span));
    assert(within.blocks.drop_last() =~= scope.blocks);
    lemma_joined(scope, enter + inner, leave, 0);
}

/// Whether a scope is inside a block of a function.
pub open spec fn in_block(scope: Scope) -> bool {
    scope.item_fn is Some && scope.blocks.len() > 0
}

/// The steps through an expression inside a block of a function are enclosed
/// in the scope of the expression.
pub proof fn lemma_expr_enclosed<'a>(scope: Scope<'a>, expr: &'a Expr)
    requires
        in_block(scope),
    ensures
        enclosed(scope, expr_nodes(expr)),
    decreases expr, 0nat,
{
    let own = seq![Node::Expr(expr)];
    lemma_enclosed_one(scope, Node::Expr(expr));
    lemma_enclosed_none(scope);
    match &expr.kind {
        ExprKind::Error => {
            lemma_enclosed_join(scope, own, Seq::empty());
        },
        ExprKind::Path(_) => {
            lemma_enclosed_join(scope, own, Seq::empty());
        },
        ExprKind::Literal => {
            lemma_enclosed_join(scope, own, Seq::empty());
        },
        ExprKind::AbiCast { address } => {
            lemma_expr_enclosed(scope, &**address);
            lemma_enclosed_join(scope, own, expr_nodes(&**address));
        },
        ExprKind::Struct { fields, .. } => {
            lemma_fields_enclosed(scope, fields, 0);
            lemma_enclosed_join(scope, own, fields_nodes(fields, 0));
        },
        ExprKind::Tuple(ExprTupleDescriptor::Nil) => {
            lemma_enclosed_join(scope, own, Seq::empty());
        },
        ExprKind::Tuple(ExprTupleDescriptor::Cons { head, tail }) => {
            lemma_expr_enclosed(scope, &**head);
            lemma_exprs_enclosed(scope, tail, 0);
            lemma_enclosed_join(scope, expr_nodes(&**head), exprs_nodes(tail, 0));
            lemma_enclosed_join(scope, own, expr_nodes(&**head) + exprs_nodes(tail, 0));
        },
        ExprKind::Parens(inner) => {
            lemma_expr_enclosed(scope, &**inner);
            lemma_enclosed_join(scope, own, expr_nodes(&**inner));
        },
        ExprKind::Block(block) => {
            lemma_block_enclosed(scope, block);
            lemma_enclosed_join(scope, own, block_nodes(block));
        },
        ExprKind::Array(ExprArrayDescriptor::Sequence(sequence)) => {
            lemma_exprs_enclosed(scope, sequence, 0);
            lemma_enclosed_join(scope, own, exprs_nodes(sequence, 0));
        },
        ExprKind::Array(ExprArrayDescriptor::Repeat { value, length }) => {
            lemma_expr_enclosed(scope, &**value);
            lemma_expr_enclosed(scope, &**length);
            lemma_enclosed_join(scope, expr_nodes(&**value), expr_nodes(&**length));
            lemma_enclosed_join(scope, own, expr_nodes(&**value) + expr_nodes(&**length));
        },
        ExprKind::Asm(asm_block) => {
            lemma_enclosed_one(scope, Node::AsmBlock(asm_block));
            lemma_enclosed_join(scope, own, seq![Node::AsmBlock(asm_block)]);
        },
        ExprKind::Return { expr_opt: Some(inner) } => {
            lemma_expr_enclosed(scope, &**inner);
            lemma_enclosed_join(scope, own, expr_nodes(&**inner));
        },
        ExprKind::Return { expr_opt: None } => {
            lemma_enclosed_join(scope, own, Seq::empty());
        },
        ExprKind::If(if_expr) => {
            lemma_if_expr_enclosed(scope, if_expr);
            lemma_enclosed_join(scope, own, if_expr_nodes(if_expr));
        },
        ExprKind::Match { value, branches } => {
            lemma_expr_enclosed(scope, &**value);
            lemma_branches_enclosed(scope, branches, 0);
            lemma_enclosed_join(scope, expr_nodes(&**value), branches_nodes(branches, 0));
            lemma_enclosed_join(scope, own, expr_nodes(&**value) + branches_nodes(branches, 0));
        },
        ExprKind::While { condition, block } => {
            lemma_expr_enclosed(scope, &**condition);
            lemma_block_enclosed(scope, block);
            lemma_enclosed_join(scope, expr_nodes(&**condition), block_nodes(block));
            lemma_enclosed_join(scope, own, expr_nodes(&**condition) + block_nodes(block));
        },
        ExprKind::FuncApp { func, args } => {
            lemma_expr_enclosed(scope, &**func);
            lemma_exprs_enclosed(scope, args, 0);
            lemma_enclosed_join(scope, expr_nodes(&**func), exprs_nodes(args, 0));
            lemma_enclosed_join(scope, own, expr_nodes(&**func) + exprs_nodes(args, 0));
        },
        ExprKind::Index { target, arg } => {
            lemma_expr_enclosed(scope, &**target);
            lemma_expr_enclosed(scope, &**arg);
            lemma_enclosed_join(scope, expr_nodes(&**target), expr_nodes(&**arg));
            lemma_enclosed_join(scope, own, expr_nodes(&**target) + expr_nodes(&**arg));
        },
        ExprKind::MethodCall { target, contract_args_opt, args, .. } => {
            let contract: Seq<Node<'a>> = match contract_args_opt {
                Some(contract_args) => fields_nodes(contract_args, 0),
                None => Seq::empty(),
            };
            lemma_expr_enclosed(scope, &**target);
            if let Some(contract_args) = contract_args_opt {
                lemma_fields_enclosed(scope, contract_args, 0);
            }
            lemma_exprs_enclosed(scope, args, 0);
            lemma_enclosed_join(scope, expr_nodes(&**target), contract);
            lemma_enclosed_join(scope, expr_nodes(&**target) + contract, exprs_nodes(args, 0));
            lemma_enclosed_join(
                scope,
                own,
                expr_nodes(&**target) + contract + exprs_nodes(args, 0),
            );
        },
        ExprKind::FieldProjection { target, .. } => {
            lemma_expr_enclosed(scope, &**target);
            lemma_enclosed_join(scope, own, expr_nodes(&**target));
        },
        ExprKind::TupleFieldProjection { target } => {
            lemma_expr_enclosed(scope, &**target);
            lemma_enclosed_join(scope, own, expr_nodes(&**target));
        },
        ExprKind::Unary { expr: inner, .. } => {
            lemma_expr_enclosed(scope, &**inner);
            lemma_enclosed_join(scope, own, expr_nodes(&**inner));
        },
        ExprKind::Binary { lhs, rhs, .. } => {
            lemma_expr_enclosed(scope, &**lhs);
            lemma_expr_enclosed(scope, &**rhs);
            lemma_enclosed_join(scope, expr_nodes(&**lhs), expr_nodes(&**rhs));
            lemma_enclosed_join(scope, own, expr_nodes(&**lhs) + expr_nodes(&**rhs));
        },
        ExprKind::Reassignment { expr: inner, .. } => {
            lemma_expr_enclosed(scope, &**inner);
            lemma_enclosed_join(scope, own, expr_nodes(&**inner));
        },
        ExprKind::Break => {
            lemma_enclosed_join(scope, own, Seq::empty());
        },
        ExprKind::Continue => {
            lemma_enclosed_join(scope, own, Seq::empty());
        },
    }
}

proof fn lemma_exprs_enclosed<'a>(scope: Scope<'a>, exprs: &'a Punctuated<Expr, Span>, from: nat)
    requires
        in_block(scope),
    ensures
        enclosed(scope, exprs_nodes(exprs, from)),
    decreases exprs, exprs.count() - from,
{
    if from >= exprs.count() {
    } else if from < exprs.value_separator_pairs@.len() {
        lemma_expr_enclosed(scope, &exprs.value_separator_pairs@[from as int].0);
        lemma_exprs_enclosed(scope, exprs, from + 1);
        lemma_enclosed_join(
            scope,
            expr_nodes(&exprs.value_separator_pairs@[from as int].0),
            exprs_nodes(exprs, from + 1),
        );
    } else {
        lemma_expr_enclosed(scope, &*exprs.final_value_opt->0);
    }
}

proof fn lemma_field_enclosed<'a>(scope: Scope<'a>, field: &'a ExprStructField)
    requires
        in_block(scope),
    ensures
        enclosed(
            scope,
            match &field.expr_opt {
                Some(value) => expr_nodes(&**value),
                None => Seq::empty(),
            },
        ),
    decreases field, 0nat,
{
    if let Some(value) = &field.expr_opt {
        lemma_expr_enclosed(scope, &**value);
    }
}

proof fn lemma_fields_enclosed<'a>(
    scope: Scope<'a>,
    fields: &'a Punctuated<ExprStructField, Span>,
    from: nat,
)
    requires
        in_block(scope),
    ensures
        enclosed(scope, fields_nodes(fields, from)),
    decreases fields, fields.count() - from,
{
    if from >= fields.count() {
    } else if from < fields.value_separator_pairs@.len() {
        let field = &fields.value_separator_pairs@[from as int].0;
        lemma_field_enclosed(scope, field);
        lemma_fields_enclosed(scope, fields, from + 1);
        lemma_enclosed_join(
            scope,
            match &field.expr_opt {
                Some(value) => expr_nodes(&**value),
                None => Seq::empty(),
            },
            fields_nodes(fields, from + 1),
        );
    } else {
        lemma_field_enclosed(scope, &*fields.final_value_opt->0);
    }
}

proof fn lemma_statements_enclosed<'a>(scope: Scope<'a>, statements: &'a Vec<Statement>, from: nat)
    requires
        in_block(scope),
    ensures
        enclosed(scope, statements_nodes(statements, from)),
    decreases statements, statements@.len() - from,
{
    if from < statements@.len() {
        let statement = &statements@[from as int];
        let own = seq![Node::Statement(statement)];
        lemma_enclosed_one(scope, Node::Statement(statement));
        lemma_enclosed_none(scope);
        let inner: Seq<Node<'a>> = match statement {
            Statement::Let(statement_let) => seq![Node::StatementLet(statement_let)] + expr_nodes(
                &statement_let.expr,
            ),
            Statement::Item => Seq::empty(),
            Statement::Expr { expr } => expr_nodes(expr),
            Statement::Error => Seq::empty(),
        };
        match statement {
            Statement::Let(statement_let) => {
                lemma_enclosed_one(scope, Node::StatementLet(statement_let));
                lemma_expr_enclosed(scope, &statement_let.expr);
                lemma_enclosed_join(
                    scope,
                    seq![Node::StatementLet(statement_let)],
                    expr_nodes(&statement_let.expr),
                );
            },
            Statement::Expr { expr } => {
                lemma_expr_enclosed(scope, expr);
            },
            _ => {},
        }
        lemma_statements_enclosed(scope, statements, from + 1);
        lemma_enclosed_join(scope, own, inner);
        lemma_enclosed_join(scope, own + inner, statements_nodes(statements, from + 1));
    }
}

/// The steps through a block of a function are enclosed in the scope of the
/// block.
pub proof fn lemma_block_enclosed<'a>(scope: Scope<'a>, block: &'a CodeBlock)
    requires
        scope.item_fn is Some,
    ensures
        enclosed(scope, block_nodes(block)),
    decreases block, 0nat,
{
    let within = scope_at(scope, Node::EnterBlock(block.span));
    let last: Seq<Node<'a>> = match &block.final_expr_opt {
        Some(expr) => expr_nodes(&**expr),
        None => Seq::empty(),
    };
    lemma_statements_enclosed(within, &block.statements, 0);
    if let Some(expr) = &block.final_expr_opt {
        lemma_expr_enclosed(within, &**expr);
    }
    lemma_enclosed_join(within, statements_nodes(&block.statements, 0), last);
    lemma_enclosed_in_block(scope, block.span, statements_nodes(&block.statements, 0) + last);
    assert(block_nodes(block) =~= seq![Node::EnterBlock(block.span)] + (statements_nodes(
        &block.statements,
        0,
    ) + last) + seq![Node::LeaveBlock(block.span)]);
}

proof fn lemma_if_expr_enclosed<'a>(scope: Scope<'a>, if_expr: &'a IfExpr)
    requires
        in_block(scope),
    ensures
        enclosed(scope, if_expr_nodes(if_expr)),
    decreases if_expr, 0nat,
{
    let condition: Seq<Node<'a>> = match &if_expr.condition {
        IfCondition::Expr(condition) => expr_nodes(&**condition),
        IfCondition::Let { rhs, .. } => expr_nodes(&**rhs),
    };
    let otherwise: Seq<Node<'a>> = match &if_expr.else_opt {
        Some(ElseBranch::ElseIf(else_if_expr)) => if_expr_nodes(&**else_if_expr),
        Some(ElseBranch::Else(else_block)) => block_nodes(else_block),
        None => Seq::empty(),
    };
    match &if_expr.condition {
        IfCondition::Expr(condition) => {
            lemma_expr_enclosed(scope, &**condition);
        },
        IfCondition::Let { rhs, .. } => {
            lemma_expr_enclosed(scope, &**rhs);
        },
    }
    lemma_block_enclosed(scope, &if_expr.then_block);
    match &if_expr.else_opt {
        Some(ElseBranch::ElseIf(else_if_expr)) => {
            lemma_if_expr_enclosed(scope, &**else_if_expr);
        },
        Some(ElseBranch::Else(else_block)) => {
            lemma_block_enclosed(scope, else_block);
        },
        None => {},
    }
    lemma_enclosed_join(scope, condition, block_nodes(&if_expr.then_block));
    lemma_enclosed_join(scope, condition + block_nodes(&if_expr.then_block), otherwise);
}

proof fn lemma_branches_enclosed<'a>(scope: Scope<'a>, branches: &'a Vec<MatchBranch>, from: nat)
    requires
        in_block(scope),
    ensures
        enclosed(scope, branches_nodes(branches, from)),
    decreases branches, branches@.len() - from,
{
    if from < branches@.len() {
        let arm: Seq<Node<'a>> = match &branches@[from as int].kind {
            MatchBranchKind::Block { block } => block_nodes(block),
            MatchBranchKind::Expr { expr } => expr_nodes(expr),
        };
        match &branches@[from as int].kind {
            MatchBranchKind::Block { block } => {
                lemma_block_enclosed(scope, block);
            },
            MatchBranchKind::Expr { expr } => {
                lemma_expr_enclosed(scope, expr);
            },
        }
        lemma_branches_enclosed(scope, branches, from + 1);
        lemma_enclosed_join(scope, arm, branches_nodes(branches, from + 1));
    }
}

/// The steps through a function that stands outside any function and block
/// are enclosed in the scope of the function.
pub proof fn lemma_fn_enclosed<'a>(scope: Scope<'a>, item_fn: &'a ItemFn)
    requires
        scope.item_fn is None,
        scope.blocks.len() == 0,
    ensures
        enclosed(scope, fn_nodes(item_fn)),
{
    let enter = seq![Node::EnterFn(item_fn)];
    let leave = seq![Node::LeaveFn(item_fn)];
    let within = scope_at(scope, Node::EnterFn(item_fn));
    let body = block_nodes(&item_fn.body);
    lemma_block_enclosed(within, &item_fn.body);
    lemma_one_step(scope, Node::EnterFn(item_fn));
    lemma_joined(scope, enter, body, 0);
    lemma_one_step(within, Node::LeaveFn(item_fn));
    lemma_joined(scope, enter + body, leave, 0);
}

proof fn lemma_impl_items_enclosed<'a>(scope: Scope<'a>, contents: &'a Vec<ItemImplItem>, from: nat)
    requires
        scope.item_fn is None,
        scope.blocks.len() == 0,
    ensures
        enclosed(scope, impl_items_nodes(contents, from)),
    decreases contents@.len() - from,
{
    if from < contents@.len() {
        let member: Seq<Node<'a>> = match &contents@[from as int] {
            ItemImplItem::Fn(item_fn) => fn_nodes(item_fn),
            ItemImplItem::Other => Seq::empty(),
        };
        if let ItemImplItem::Fn(item_fn) = &contents@[from as int] {
            lemma_fn_enclosed(scope, item_fn);
        }
        lemma_impl_items_enclosed(scope, contents, from + 1);
        lemma_enclosed_join(scope, member, impl_items_nodes(contents, from + 1));
    }
}

/// The steps through an implementation at the top of a module are enclosed in
/// the scope of the top.
pub proof fn lemma_impl_enclosed<'a>(item_impl: &'a ItemImpl)
    ensures
        enclosed(top_scope(), impl_nodes(item_impl)),
{
    let scope = top_scope::<'a>();
    let enter = seq![Node::EnterImpl(item_impl)];
    let leave = seq![Node::LeaveImpl(item_impl)];
    let within = scope_at(scope, Node::EnterImpl(item_impl));
    let members = impl_items_nodes(&item_impl.contents, 0);
    lemma_impl_items_enclosed(within, &item_impl.contents, 0);
    lemma_one_step(scope, Node::EnterImpl(item_impl));
    lemma_joined(scope, enter, members, 0);
    lemma_one_step(within, Node::LeaveImpl(item_impl));
    lemma_joined(scope, enter + members, leave, 0);
}

proof fn lemma_items_enclosed<'a>(items: &'a Vec<Item>, from: nat)
    ensures
        enclosed(top_scope(), items_nodes(items, from)),
    decreases items@.len() - from,
{
    let scope = top_scope::<'a>();
    if from < items@.len() {
        let item: Seq<Node<'a>> = match &items@[from as int].value {
            ItemKind::Use(item_use) => seq![Node::Use(item_use)],
            ItemKind::Fn(item_fn) => fn_nodes(item_fn),
            ItemKind::Impl(item_impl) => impl_nodes(item_impl),
            ItemKind::Other => Seq::empty(),
        };
        match &items@[from as int].value {
            ItemKind::Use(item_use) => {
                lemma_enclosed_one(scope, Node::Use(item_use));
            },
            ItemKind::Fn(item_fn) => {
                lemma_fn_enclosed(scope, item_fn);
            },
            ItemKind::Impl(item_impl) => {
                lemma_impl_enclosed(item_impl);
            },
            ItemKind::Other => {},
        }
        lemma_items_enclosed(items, from + 1);
        lemma_enclosed_join(scope, item, items_nodes(items, from + 1));
    }
}

/// In the walk through a module every step is shown in a scope that fits it:
/// statements, expressions and assembly blocks inside a block of a function,
/// functions outside any block, and so on.  The walk leaves whatever it
/// entered, and so ends at the top of the module.
pub proof fn lemma_module_well_scoped(module: &Module)
    ensures
        well_scoped(top_scope(), module_nodes(module), 0),
        scope_from(top_scope(), module_nodes(module), 0) == top_scope(),
{
    lemma_items_enclosed(&module.items, 0);
}

/// The scope before the `to`-th step of `nodes`, where `scope` is the scope
/// before the `from`-th.
pub open spec fn scope_before<'a>(scope: Scope<'a>, nodes: Seq<Node<'a>>, from: nat, to: nat) -> Scope<
    'a,
>
    decreases to - from,
{
    if from >= to || from >= nodes.len() {
        scope
    } else {
        scope_before(scope_after(scope, nodes[from as int]), nodes, from + 1, to)
    }
}

/// In a well scoped walk, each single step is shown in a scope that fits it.
pub proof fn lemma_step_fits<'a>(scope: Scope<'a>, nodes: Seq<Node<'a>>, from: nat, at: nat)
    requires
        well_scoped(scope, nodes, from),
        from <= at < nodes.len(),
    ensures
        fits(scope_at(scope_before(scope, nodes, from, at), nodes[at as int]), nodes[at as int]),
    decreases at - from,
{
    if from < at {
        lemma_step_fits(scope_after(scope, nodes[from as int]), nodes, from + 1, at);
    }
}

/// What every step hands on, the whole walk arrives with.  `kept` may speak
/// of the place in the walk and of the scope there: if it holds before the
/// `from`-th step, each step takes it from its own place to the next, and no
/// step fails where it holds, then the walk does not fail and `kept` holds at
/// its end.
pub proof fn lemma_driven_keeps_along<'a, V: AstVisitor>(
    kept: spec_fn(nat, Scope<'a>, V::State) -> bool,
    state: V::State,
    files: Seq<SourceFile>,
    module: &'a Module,
    scope: Scope<'a>,
    nodes: Seq<Node<'a>>,
    from: nat,
)
    requires
        from <= nodes.len(),
        kept(from, scope, state),
        forall|k: nat, at: Scope<'a>, before: V::State|
            #![trigger kept(k, at, before)]
            from <= k < nodes.len() && kept(k, at, before) ==> V::visited(
                before,
                files,
                module,
                scope_at(at, nodes[k as int]),
                nodes[k as int],
            ).error is None && kept(
                k + 1,
                scope_after(at, nodes[k as int]),
                V::visited(
                    before,
                    files,
                    module,
                    scope_at(at, nodes[k as int]),
                    nodes[k as int],
                ).state,
            ),
    ensures
        driven::<V>(state, files, module, scope, nodes, from).error is None,
        kept(
            nodes.len(),
            scope_from(scope, nodes, from),
            driven::<V>(state, files, module, scope, nodes, from).state,
        ),
    decreases nodes.len() - from,
{
    if from < nodes.len() {
        let node = nodes[from as int];
        assert(kept(from, scope, state));
        let step = V::visited(state, files, module, scope_at(scope, node), node);
        lemma_driven_keeps_along::<V>(
            kept,
            step.state,
            files,
            module,
            scope_after(scope, node),
            nodes,
            from + 1,
        );
    }
}

/// The state of a visitor before the `to`-th step of `nodes`, where `state`
/// and `scope` are its state and the scope before the `from`-th, and no step
/// in between fails.
pub open spec fn state_before<'a, V: AstVisitor>(
    state: V::State,
    files: Seq<SourceFile>,
    module: &'a Module,
    scope: Scope<'a>,
    nodes: Seq<Node<'a>>,
    from: nat,
    to: nat,
) -> V::State
    decreases to - from,
{
    if from >= to || from >= nodes.len() {
        state
    } else {
        state_before::<V>(
            V::visited(
                state,
                files,
                module,
                scope_at(scope, nodes[from as int]),
                nodes[from as int],
            ).state,
            files,
            module,
            scope_after(scope, nodes[from as int]),
            nodes,
            from + 1,
            to,
        )
    }
}

/// What every step keeps holds before every step: if each step keeps `kept`,
/// it holds of the state before the `to`-th step.
pub proof fn lemma_kept_before<'a, V: AstVisitor>(
    kept: spec_fn(V::State) -> bool,
    state: V::State,
    files: Seq<SourceFile>,
    module: &'a Module,
    scope: Scope<'a>,
    nodes: Seq<Node<'a>>,
    from: nat,
    to: nat,
)
    requires
        kept(state),
        forall|before: V::State, at: Scope<'a>, k: int|
            from <= k < nodes.len() && kept(before) ==> kept(
                #[trigger] V::visited(before, files, module, at, nodes[k]).state,
            ),
    ensures
        kept(state_before::<V>(state, files, module, scope, nodes, from, to)),
    decreases to - from,
{
    if from < to && from < nodes.len() {
        let node = nodes[from as int];
        let step = V::visited(state, files, module, scope_at(scope, node), nodes[from as int]);
        lemma_kept_before::<V>(
            kept,
            step.state,
            files,
            module,
            scope_after(scope, node),
            nodes,
            from + 1,
            to,
        );
    }
}

/// A walk that does not fail can be taken up at any of its steps: from the
/// state and the scope before the `to`-th step, the rest of the walk does not
/// fail, ends in the same state, and makes findings that are all among those
/// of the whole walk.
pub proof fn lemma_driven_split<'a, V: AstVisitor>(
    state: V::State,
    files: Seq<SourceFile>,
    module: &'a Module,
    scope: Scope<'a>,
    nodes: Seq<Node<'a>>,
    from: nat,
    to: nat,
)
    requires
        from <= to <= nodes.len(),
        driven::<V>(state, files, module, scope, nodes, from).error is None,
    ensures
        driven::<V>(
            state_before::<V>(state, files, module, scope, nodes, from, to),
            files,
            module,
            scope_before(scope, nodes, from, to),
            nodes,
            to,
        ).error is None,
        driven::<V>(
            state_before::<V>(state, files, module, scope, nodes, from, to),
            files,
            module,
            scope_before(scope, nodes, from, to),
            nodes,
            to,
        ).state == driven::<V>(state, files, module, scope, nodes, from).state,
        forall|j: int|
            0 <= j < driven::<V>(
                state_before::<V>(state, files, module, scope, nodes, from, to),
                files,
                module,
                scope_before(scope, nodes, from, to),
                nodes,
                to,
            ).findings.len() ==> driven::<V>(
                state,
                files,
                module,
                scope,
                nodes,
                from,
            ).findings.contains(
                #[trigger] driven::<V>(
                    state_before::<V>(state, files, module, scope, nodes, from, to),
                    files,
                    module,
                    scope_before(scope, nodes, from, to),
                    nodes,
                    to,
                ).findings[j],
            ),
    decreases to - from,
{
    let whole = driven::<V>(state, files, module, scope, nodes, from);
    if from < to {
        let node = nodes[from as int];
        let step = V::visited(state, files, module, scope_at(scope, node), node);
        let next = driven::<V>(step.state, files, module, scope_after(scope, node), nodes, from + 1);
        assert(step.error is None);
        assert(whole.findings == step.findings + next.findings);
        lemma_driven_split::<V>(
            step.state,
            files,
            module,
            scope_after(scope, node),
            nodes,
            from + 1,
            to,
        );
        let rest = driven::<V>(
            state_before::<V>(state, files, module, scope, nodes, from, to),
            files,
            module,
            scope_before(scope, nodes, from, to),
            nodes,
            to,
        );
        assert forall|j: int| 0 <= j < rest.findings.len() implies whole.findings.contains(
            #[trigger] rest.findings[j],
        ) by {
            assert(next.findings.contains(rest.findings[j]));
            let i = choose|i: int| 0 <= i < next.findings.len() && next.findings[i] == rest.findings[j];
            assert(whole.findings[step.findings.len() + i] == rest.findings[j]);
        }
    } else {
        assert forall|j: int| 0 <= j < whole.findings.len() implies whole.findings.contains(
            #[trigger] whole.findings[j],
        ) by {}
    }
}

/// In a walk that does not fail no step fails, and what each step finds is
/// among the findings of the walk.
pub proof fn lemma_driven_contains_step<'a, V: AstVisitor>(
    state: V::State,
    files: Seq<SourceFile>,
    module: &'a Module,
    scope: Scope<'a>,
    nodes: Seq<Node<'a>>,
    from: nat,
    at: nat,
)
    requires
        from <= at < nodes.len(),
        driven::<V>(state, files, module, scope, nodes, from).error is None,
    ensures
        V::visited(
            state_before::<V>(state, files, module, scope, nodes, from, at),
            files,
            module,
            scope_at(scope_before(scope, nodes, from, at), nodes[at as int]),
            nodes[at as int],
        ).error is None,
        forall|j: int|
            0 <= j < V::visited(
                state_before::<V>(state, files, module, scope, nodes, from, at),
                files,
                module,
                scope_at(scope_before(scope, nodes, from, at), nodes[at as int]),
                nodes[at as int],
            ).findings.len() ==> driven::<V>(
                state,
                files,
                module,
                scope,
                nodes,
                from,
            ).findings.contains(
                #[trigger] V::visited(
                    state_before::<V>(state, files, module, scope, nodes, from, at),
                    files,
                    module,
                    scope_at(scope_before(scope, nodes, from, at), nodes[at as int]),
                    nodes[at as int],
                ).findings[j],
            ),
{
    let whole = driven::<V>(state, files, module, scope, nodes, from);
    let reached = state_before::<V>(state, files, module, scope, nodes, from, at);
    let around = scope_before(scope, nodes, from, at);
    let rest = driven::<V>(reached, files, module, around, nodes, at);
    let step = V::visited(reached, files, module, scope_at(around, nodes[at as int]), nodes[at as int]);
    lemma_driven_split::<V>(state, files, module, scope, nodes, from, at);
    assert(step.error is None);
    let next = driven::<V>(
        step.state,
        files,
        module,
        scope_after(around, nodes[at as int]),
        nodes,
        at + 1,
    );
    assert(rest.findings == step.findings + next.findings);
    assert forall|j: int| 0 <= j < step.findings.len() implies whole.findings.contains(
        #[trigger] step.findings[j],
    ) by {
        assert(rest.findings[j] == step.findings[j]);
    }
}

} // verus!
