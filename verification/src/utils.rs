//! Structural extractors: pure folds of expressions, patterns and statements
//! into flat facts.

use vstd::prelude::*;
use crate::ast::{
    Assignable, AssignableKind, Attribute, AttributeDecl, CodeBlock, ElseBranch, Expr,
    ExprArrayDescriptor, ExprKind, ExprStructField, ExprTupleDescriptor, Ident, IfCondition, IfExpr,
    MatchBranch, MatchBranchKind, PathExpr, Pattern, PatternStructField, Punctuated, Span,
    Statement, UseTree,
};
use crate::text::text_is;

verus! {

/// The values of a punctuated list in order, without the separators.
pub fn fold_punctuated<T, P>(punctuated: &Punctuated<T, P>) -> (result: Vec<&T>)
    ensures
        result@.len() == punctuated.count(),
        forall|k: int| 0 <= k < result@.len() ==> *#[trigger] result@[k] == punctuated.value(k),
{
    let mut result: Vec<&T> = Vec::new();
    let n: usize = punctuated.value_separator_pairs.len();
    let mut i: usize = 0;
    while i < n
        invariant
            n == punctuated.value_separator_pairs@.len(),
            i <= n,
            result@.len() == i,
            forall|k: int| 0 <= k < i ==> *#[trigger] result@[k] == punctuated.value(k),
        decreases n - i,
    {
        result.push(&punctuated.value_separator_pairs[i].0);
        i += 1;
    }
    if let Some(x) = &punctuated.final_value_opt {
        result.push(&**x);
    }
    result
}

/// The elements of a tuple expression: none for `()`, else the first element
/// followed by the rest.
pub open spec fn tuple_values(tuple: ExprTupleDescriptor) -> Seq<Expr> {
    match tuple {
        ExprTupleDescriptor::Nil => Seq::empty(),
        ExprTupleDescriptor::Cons { head, tail } => seq![*head] + tail.values(),
    }
}

/// The elements of a tuple expression in order.
pub fn fold_tuple(tuple: &ExprTupleDescriptor) -> (result: Vec<&Expr>)
    ensures
        result@.len() == tuple_values(*tuple).len(),
        forall|k: int| 0 <= k < result@.len() ==> *#[trigger] result@[k] == tuple_values(*tuple)[k],
{
    let mut result: Vec<&Expr> = Vec::new();
    match tuple {
        ExprTupleDescriptor::Nil => {},
        ExprTupleDescriptor::Cons { head, tail } => {
            result.push(&**head);
            let mut rest = fold_punctuated(tail);
            result.append(&mut rest);
        },
    }
    result
}

/// The identifiers of a path, `a::b::c` as `[a, b, c]`.
pub open spec fn path_idents(path: PathExpr) -> Seq<Ident> {
    seq![path.prefix] + path.suffix@
}

/// The identifiers of a path in order.
pub fn fold_path_idents(path: &PathExpr) -> (result: Vec<Ident>)
    ensures
        result@ == path_idents(*path),
{
    let mut result: Vec<Ident> = Vec::new();
    result.push(path.prefix.clone());
    let n: usize = path.suffix.len();
    let mut i: usize = 0;
    while i < n
        invariant
            n == path.suffix@.len(),
            i <= n,
            result@ == seq![path.prefix] + path.suffix@.take(i as int),
        decreases n - i,
    {
        result.push(path.suffix[i].clone());
        assert(path.suffix@.take(i + 1) == path.suffix@.take(i as int).push(path.suffix@[i as int]));
        i += 1;
    }
    assert(path.suffix@.take(n as int) == path.suffix@);
    result
}

/// The chain of names an access expression is made of: `a.b.c()` gives
/// `[a, b, c]`.  Indexing and tuple fields add no name; any expression that is
/// not a path, an index, a method call or a field access gives nothing.
pub open spec fn expr_idents(expr: Expr) -> Seq<Ident>
    decreases expr,
{
    match expr.kind {
        ExprKind::Path(path) => path_idents(path),
        ExprKind::Index { target, .. } => expr_idents(*target),
        ExprKind::MethodCall { target, path_seg, .. } => expr_idents(*target).push(path_seg),
        ExprKind::FieldProjection { target, name } => expr_idents(*target).push(name),
        ExprKind::TupleFieldProjection { target } => expr_idents(*target),
        _ => Seq::empty(),
    }
}

/// The chain of names of an access expression.
pub fn fold_expr_idents(expr: &Expr) -> (result: Vec<Ident>)
    ensures
        result@ == expr_idents(*expr),
    decreases expr,
{
    match &expr.kind {
        ExprKind::Path(path) => fold_path_idents(path),
        ExprKind::Index { target, .. } => fold_expr_idents(target),
        ExprKind::MethodCall { target, path_seg, .. } => {
            let mut result = fold_expr_idents(target);
            result.push(path_seg.clone());
            result
        },
        ExprKind::FieldProjection { target, name } => {
            let mut result = fold_expr_idents(target);
            result.push(name.clone());
            result
        },
        ExprKind::TupleFieldProjection { target } => fold_expr_idents(target),
        _ => Vec::new(),
    }
}

/// Whether `expr` is a method call on storage: a method call whose chain of
/// names has at least three links and begins with `storage`.
pub open spec fn is_storage_access(expr: Expr) -> bool {
    &&& expr.kind is MethodCall
    &&& expr_idents(expr).len() >= 3
    &&& expr_idents(expr)[0].name@ == "storage"@
}

/// The first of two search results.
pub open spec fn first_of(a: Option<Expr>, b: Option<Expr>) -> Option<Expr> {
    if a is Some {
        a
    } else {
        b
    }
}

/// The first storage access inside `expr`, searching the expression itself and
/// then its parts from left to right.  The path of a struct expression, the
/// target of an assignment and the pattern of a match arm are not searched.
pub open spec fn storage_access_in_expr(expr: Expr) -> Option<Expr>
    decreases expr, 0nat,
{
    match expr.kind {
        ExprKind::Error => None,
        ExprKind::Path(_) => None,
        ExprKind::Literal => None,
        ExprKind::AbiCast { address } => storage_access_in_expr(*address),
        ExprKind::Struct { fields, .. } => storage_access_in_fields(fields, 0),
        ExprKind::Tuple(ExprTupleDescriptor::Nil) => None,
        ExprKind::Tuple(ExprTupleDescriptor::Cons { head, tail }) => first_of(
            storage_access_in_expr(*head),
            storage_access_in_exprs(tail, 0),
        ),
        ExprKind::Parens(inner) => storage_access_in_expr(*inner),
        ExprKind::Block(block) => storage_access_in_block(block),
        ExprKind::Array(ExprArrayDescriptor::Sequence(sequence)) => storage_access_in_exprs(
            sequence,
            0,
        ),
        ExprKind::Array(ExprArrayDescriptor::Repeat { value, length }) => first_of(
            storage_access_in_expr(*value),
            storage_access_in_expr(*length),
        ),
        ExprKind::Asm(_) => None,
        ExprKind::Return { expr_opt } => match expr_opt {
            Some(inner) => storage_access_in_expr(*inner),
            None => None,
        },
        ExprKind::If(if_expr) => storage_access_in_if_expr(if_expr),
        ExprKind::Match { value, branches } => first_of(
            storage_access_in_expr(*value),
            storage_access_in_branches(branches, 0),
        ),
        ExprKind::While { condition, block } => first_of(
            storage_access_in_expr(*condition),
            storage_access_in_block(block),
        ),
        ExprKind::FuncApp { func, args } => first_of(
            storage_access_in_expr(*func),
            storage_access_in_exprs(args, 0),
        ),
        ExprKind::Index { target, arg } => first_of(
            storage_access_in_expr(*target),
            storage_access_in_expr(*arg),
        ),
        ExprKind::MethodCall { target, contract_args_opt, args, .. } => if is_storage_access(
            expr,
        ) {
            Some(expr)
        } else {
            first_of(
                storage_access_in_expr(*target),
                first_of(
                    match contract_args_opt {
                        Some(contract_args) => storage_access_in_fields(contract_args, 0),
                        None => None,
                    },
                    storage_access_in_exprs(args, 0),
                ),
            )
        },
        ExprKind::FieldProjection { target, .. } => storage_access_in_expr(*target),
        ExprKind::TupleFieldProjection { target } => storage_access_in_expr(*target),
        ExprKind::Unary { expr: inner, .. } => storage_access_in_expr(*inner),
        ExprKind::Binary { lhs, rhs, .. } => first_of(
            storage_access_in_expr(*lhs),
            storage_access_in_expr(*rhs),
        ),
        ExprKind::Reassignment { expr: inner, .. } => storage_access_in_expr(*inner),
        ExprKind::Break => None,
        ExprKind::Continue => None,
    }
}

/// The first storage access in the values of `exprs` from the `from`-th on.
pub open spec fn storage_access_in_exprs(exprs: Punctuated<Expr, Span>, from: nat) -> Option<Expr>
    decreases exprs, exprs.count() - from,
{
    if from >= exprs.count() {
        None
    } else if from < exprs.value_separator_pairs@.len() {
        first_of(
            storage_access_in_expr(exprs.value_separator_pairs@[from as int].0),
            storage_access_in_exprs(exprs, from + 1),
        )
    } else {
        storage_access_in_expr(*exprs.final_value_opt->0)
    }
}

/// The first storage access in the values of the fields of `fields` from the
/// `from`-th on; a field written in shorthand has no value to search.
pub open spec fn storage_access_in_fields(
    fields: Punctuated<ExprStructField, Span>,
    from: nat,
) -> Option<Expr>
    decreases fields, fields.count() - from,
{
    if from >= fields.count() {
        None
    } else if from < fields.value_separator_pairs@.len() {
        first_of(
            match fields.value_separator_pairs@[from as int].0.expr_opt {
                Some(value) => storage_access_in_expr(*value),
                None => None,
            },
            storage_access_in_fields(fields, from + 1),
        )
    } else {
        match (*fields.final_value_opt->0).expr_opt {
            Some(value) => storage_access_in_expr(*value),
            None => None,
        }
    }
}

/// The first storage access in the bound or evaluated expressions of the
/// statements from the `from`-th on.
pub open spec fn storage_access_in_statements(statements: Vec<Statement>, from: nat) -> Option<
    Expr,
>
    decreases statements, statements@.len() - from,
{
    if from >= statements@.len() {
        None
    } else {
        first_of(
            match statements@[from as int] {
                Statement::Let(statement_let) => storage_access_in_expr(statement_let.expr),
                Statement::Item => None,
                Statement::Expr { expr } => storage_access_in_expr(expr),
                Statement::Error => None,
            },
            storage_access_in_statements(statements, from + 1),
        )
    }
}

/// The first storage access in a block: in its statements, then in its final
/// expression.
pub open spec fn storage_access_in_block(block: CodeBlock) -> Option<Expr>
    decreases block, 0nat,
{
    first_of(
        storage_access_in_statements(block.statements, 0),
        match block.final_expr_opt {
            Some(expr) => storage_access_in_expr(*expr),
            None => None,
        },
    )
}

/// The first storage access in an `if`: in its condition, its first block,
/// then whatever follows `else`.
pub open spec fn storage_access_in_if_expr(if_expr: IfExpr) -> Option<Expr>
    decreases if_expr, 0nat,
{
    first_of(
        match if_expr.condition {
            IfCondition::Expr(expr) => storage_access_in_expr(*expr),
            IfCondition::Let { rhs, .. } => storage_access_in_expr(*rhs),
        },
        first_of(
            storage_access_in_block(if_expr.then_block),
            match if_expr.else_opt {
                Some(ElseBranch::ElseIf(else_if_expr)) => storage_access_in_if_expr(*else_if_expr),
                Some(ElseBranch::Else(else_block)) => storage_access_in_block(else_block),
                None => None,
            },
        ),
    )
}

/// The first storage access in the blocks or expressions of the arms of a
/// match from the `from`-th on.
pub open spec fn storage_access_in_branches(branches: Vec<MatchBranch>, from: nat) -> Option<Expr>
    decreases branches, branches@.len() - from,
{
    if from >= branches@.len() {
        None
    } else {
        first_of(
            match branches@[from as int].kind {
                MatchBranchKind::Block { block } => storage_access_in_block(block),
                MatchBranchKind::Expr { expr } => storage_access_in_expr(expr),
            },
            storage_access_in_branches(branches, from + 1),
        )
    }
}

/// Whether an optional reference into the tree is the given search result.
pub open spec fn is_found(result: Option<&Expr>, expected: Option<Expr>) -> bool {
    match result {
        Some(found) => expected == Some(*found),
        None => expected is None,
    }
}

fn expr_is_storage_access(expr: &Expr) -> (r: bool)
    requires
        expr.kind is MethodCall,
    ensures
        r == is_storage_access(*expr),
{
    let idents = fold_expr_idents(expr);
    idents.len() >= 3 && text_is(&idents[0].name, "storage")
}

fn find_storage_access_in_exprs<'a>(exprs: &'a Punctuated<Expr, Span>) -> (result: Option<
    &'a Expr,
>)
    ensures
        is_found(result, storage_access_in_exprs(*exprs, 0)),
    decreases exprs,
{
    let values = fold_punctuated(exprs);
    let n: usize = values.len();
    let mut i: usize = 0;
    while i < n
        invariant
            n == values@.len(),
            n == exprs.count(),
            i <= n,
            forall|k: int| 0 <= k < n ==> *#[trigger] values@[k] == exprs.value(k),
            storage_access_in_exprs(*exprs, 0) == storage_access_in_exprs(*exprs, i as nat),
        decreases n - i,
    {
        let result = find_storage_access_in_expr(values[i]);
        if result.is_some() {
            return result;
        }
        i += 1;
    }
    None
}

fn find_storage_access_in_fields<'a>(fields: &'a Punctuated<ExprStructField, Span>) -> (result:
    Option<&'a Expr>)
    ensures
        is_found(result, storage_access_in_fields(*fields, 0)),
    decreases fields,
{
    let values = fold_punctuated(fields);
    let n: usize = values.len();
    let mut i: usize = 0;
    while i < n
        invariant
            n == values@.len(),
            n == fields.count(),
            i <= n,
            forall|k: int| 0 <= k < n ==> *#[trigger] values@[k] == fields.value(k),
            storage_access_in_fields(*fields, 0) == storage_access_in_fields(*fields, i as nat),
        decreases n - i,
    {
        if let Some(value) = &values[i].expr_opt {
            let result = find_storage_access_in_expr(value);
            if result.is_some() {
                return result;
            }
        }
        i += 1;
    }
    None
}

fn find_storage_access_in_block<'a>(block: &'a CodeBlock) -> (result: Option<&'a Expr>)
    ensures
        is_found(result, storage_access_in_block(*block)),
    decreases block,
{
    let n: usize = block.statements.len();
    let mut i: usize = 0;
    while i < n
        invariant
            n == block.statements@.len(),
            i <= n,
            storage_access_in_statements(block.statements, 0) == storage_access_in_statements(
                block.statements,
                i as nat,
            ),
        decreases n - i,
    {
        match &block.statements[i] {
            Statement::Let(statement_let) => {
                let result = find_storage_access_in_expr(&statement_let.expr);
                if result.is_some() {
                    return result;
                }
            },
            Statement::Item => {},
            Statement::Expr { expr } => {
                let result = find_storage_access_in_expr(expr);
                if result.is_some() {
                    return result;
                }
            },
            Statement::Error => {},
        }
        i += 1;
    }
    if let Some(expr) = &block.final_expr_opt {
        let result = find_storage_access_in_expr(expr);
        if result.is_some() {
            return result;
        }
    }
    None
}

fn find_storage_access_in_if_expr<'a>(if_expr: &'a IfExpr) -> (result: Option<&'a Expr>)
    ensures
        is_found(result, storage_access_in_if_expr(*if_expr)),
    decreases if_expr,
{
    match &if_expr.condition {
        IfCondition::Expr(expr) => {
            let result = find_storage_access_in_expr(expr);
            if result.is_some() {
                return result;
            }
        },
        IfCondition::Let { rhs, .. } => {
            let result = find_storage_access_in_expr(rhs);
            if result.is_some() {
                return result;
            }
        },
    }
    let result = find_storage_access_in_block(&if_expr.then_block);
    if result.is_some() {
        return result;
    }
    match &if_expr.else_opt {
        Some(ElseBranch::ElseIf(else_if_expr)) => find_storage_access_in_if_expr(else_if_expr),
        Some(ElseBranch::Else(else_block)) => find_storage_access_in_block(else_block),
        None => None,
    }
}

fn find_storage_access_in_branches<'a>(branches: &'a Vec<MatchBranch>) -> (result: Option<
    &'a Expr,
>)
    ensures
        is_found(result, storage_access_in_branches(*branches, 0)),
    decreases branches,
{
    let n: usize = branches.len();
    let mut i: usize = 0;
    while i < n
        invariant
            n == branches@.len(),
            i <= n,
            storage_access_in_branches(*branches, 0) == storage_access_in_branches(
                *branches,
                i as nat,
            ),
        decreases n - i,
    {
        match &branches[i].kind {
            MatchBranchKind::Block { block } => {
                let result = find_storage_access_in_block(block);
                if result.is_some() {
                    return result;
                }
            },
            MatchBranchKind::Expr { expr } => {
                let result = find_storage_access_in_expr(expr);
                if result.is_some() {
                    return result;
                }
            },
        }
        i += 1;
    }
    None
}

/// Finds the first storage access inside `expr`: the expression itself if it
/// is one, else the first one found in its parts from left to right.
pub fn find_storage_access_in_expr<'a>(expr: &'a Expr) -> (result: Option<&'a Expr>)
    ensures
        is_found(result, storage_access_in_expr(*expr)),
    decreases expr,
{
    match &expr.kind {
        ExprKind::Error => None,
        ExprKind::Path(_) => None,
        ExprKind::Literal => None,
        ExprKind::AbiCast { address } => find_storage_access_in_expr(address),
        ExprKind::Struct { fields, .. } => find_storage_access_in_fields(fields),
        ExprKind::Tuple(tuple) => match tuple {
            ExprTupleDescriptor::Nil => None,
            ExprTupleDescriptor::Cons { head, tail } => {
                let result = find_storage_access_in_expr(head);
                if result.is_some() {
                    return result;
                }
                find_storage_access_in_exprs(tail)
            },
        },
        ExprKind::Parens(inner) => find_storage_access_in_expr(inner),
        ExprKind::Block(block) => find_storage_access_in_block(block),
        ExprKind::Array(array) => match array {
            ExprArrayDescriptor::Sequence(sequence) => find_storage_access_in_exprs(sequence),
            ExprArrayDescriptor::Repeat { value, length } => {
                let result = find_storage_access_in_expr(value);
                if result.is_some() {
                    return result;
                }
                find_storage_access_in_expr(length)
            },
        },
        ExprKind::Asm(_) => None,
        ExprKind::Return { expr_opt } => match expr_opt {
            Some(inner) => find_storage_access_in_expr(inner),
            None => None,
        },
        ExprKind::If(if_expr) => find_storage_access_in_if_expr(if_expr),
        ExprKind::Match { value, branches } => {
            let result = find_storage_access_in_expr(value);
            if result.is_some() {
                return result;
            }
            find_storage_access_in_branches(branches)
        },
        ExprKind::While { condition, block } => {
            let result = find_storage_access_in_expr(condition);
            if result.is_some() {
                return result;
            }
            find_storage_access_in_block(block)
        },
        ExprKind::FuncApp { func, args } => {
            let result = find_storage_access_in_expr(func);
            if result.is_some() {
                return result;
            }
            find_storage_access_in_exprs(args)
        },
        ExprKind::Index { target, arg } => {
            let result = find_storage_access_in_expr(target);
            if result.is_some() {
                return result;
            }
            find_storage_access_in_expr(arg)
        },
        ExprKind::MethodCall { target, contract_args_opt, args, .. } => {
            if expr_is_storage_access(expr) {
                return Some(expr);
            }
            let result = find_storage_access_in_expr(target);
            if result.is_some() {
                return result;
            }
            if let Some(contract_args) = contract_args_opt {
                let result = find_storage_access_in_fields(contract_args);
                if result.is_some() {
                    return result;
                }
            }
            find_storage_access_in_exprs(args)
        },
        ExprKind::FieldProjection { target, .. } => find_storage_access_in_expr(target),
        ExprKind::TupleFieldProjection { target } => find_storage_access_in_expr(target),
        ExprKind::Unary { expr: inner, .. } => find_storage_access_in_expr(inner),
        ExprKind::Binary { lhs, rhs, .. } => {
            let result = find_storage_access_in_expr(lhs);
            if result.is_some() {
                return result;
            }
            find_storage_access_in_expr(rhs)
        },
        ExprKind::Reassignment { expr: inner, .. } => find_storage_access_in_expr(inner),
        ExprKind::Break => None,
        ExprKind::Continue => None,
    }
}

/// The source ranges of the names an expression mentions, in the order they
/// are met: a path and a field access count as a whole, a struct field written
/// in shorthand counts as its name, an assignment counts its whole target.
/// Blocks, conditionals, loops and matches are not entered.
pub open spec fn expr_ident_spans(expr: Expr) -> Seq<Span>
    decreases expr, 0nat,
{
    match expr.kind {
        ExprKind::Path(_) => seq![expr.span],
        ExprKind::AbiCast { address } => expr_ident_spans(*address),
        ExprKind::Struct { fields, .. } => fields_ident_spans(fields, 0),
        ExprKind::Tuple(ExprTupleDescriptor::Cons { head, tail }) => expr_ident_spans(*head)
            + exprs_ident_spans(tail, 0),
        ExprKind::Parens(inner) => expr_ident_spans(*inner),
        ExprKind::Array(ExprArrayDescriptor::Sequence(sequence)) => exprs_ident_spans(sequence, 0),
        ExprKind::Array(ExprArrayDescriptor::Repeat { value, length }) => expr_ident_spans(*value)
            + expr_ident_spans(*length),
        ExprKind::Return { expr_opt: Some(inner) } => expr_ident_spans(*inner),
        ExprKind::FuncApp { func, args } => expr_ident_spans(*func) + exprs_ident_spans(args, 0),
        ExprKind::Index { target, arg } => expr_ident_spans(*target) + expr_ident_spans(*arg),
        ExprKind::MethodCall { target, args, .. } => expr_ident_spans(*target) + exprs_ident_spans(
            args,
            0,
        ),
        ExprKind::FieldProjection { target, .. } => seq![expr.span] + expr_ident_spans(*target),
        ExprKind::TupleFieldProjection { target } => seq![expr.span] + expr_ident_spans(*target),
        ExprKind::Unary { expr: inner, .. } => expr_ident_spans(*inner),
        ExprKind::Binary { lhs, rhs, .. } => expr_ident_spans(*lhs) + expr_ident_spans(*rhs),
        ExprKind::Reassignment { assignable, expr: inner } => seq![assignable.span]
            + expr_ident_spans(*inner),
        _ => Seq::empty(),
    }
}

/// The name ranges of the values of `exprs` from the `from`-th on.
pub open spec fn exprs_ident_spans(exprs: Punctuated<Expr, Span>, from: nat) -> Seq<Span>
    decreases exprs, exprs.count() - from,
{
    if from >= exprs.count() {
        Seq::empty()
    } else if from < exprs.value_separator_pairs@.len() {
        expr_ident_spans(exprs.value_separator_pairs@[from as int].0) + exprs_ident_spans(
            exprs,
            from + 1,
        )
    } else {
        expr_ident_spans(*exprs.final_value_opt->0)
    }
}

/// The name ranges of the struct fields of `fields` from the `from`-th on: those
/// of a field's value, or the field's own name where it is written in shorthand.
pub open spec fn fields_ident_spans(fields: Punctuated<ExprStructField, Span>, from: nat) -> Seq<
    Span,
>
    decreases fields, fields.count() - from,
{
    if from >= fields.count() {
        Seq::empty()
    } else if from < fields.value_separator_pairs@.len() {
        (match fields.value_separator_pairs@[from as int].0.expr_opt {
            Some(value) => expr_ident_spans(*value),
            None => seq![fields.value_separator_pairs@[from as int].0.field_name.span],
        }) + fields_ident_spans(fields, from + 1)
    } else {
        match (*fields.final_value_opt->0).expr_opt {
            Some(value) => expr_ident_spans(*value),
            None => seq![(*fields.final_value_opt->0).field_name.span],
        }
    }
}

fn fold_exprs_ident_spans(exprs: &Punctuated<Expr, Span>) -> (spans: Vec<Span>)
    ensures
        spans@ == exprs_ident_spans(*exprs, 0),
    decreases exprs,
{
    let mut spans: Vec<Span> = Vec::new();
    let values = fold_punctuated(exprs);
    let n: usize = values.len();
    let mut i: usize = 0;
    while i < n
        invariant
            n == values@.len(),
            n == exprs.count(),
            i <= n,
            forall|k: int| 0 <= k < n ==> *#[trigger] values@[k] == exprs.value(k),
            spans@ + exprs_ident_spans(*exprs, i as nat) == exprs_ident_spans(*exprs, 0),
        decreases n - i,
    {
        let ghost before = spans@;
        let mut found = fold_expr_ident_spans(values[i]);
        spans.append(&mut found);
        assert(spans@ + exprs_ident_spans(*exprs, (i + 1) as nat) == before + exprs_ident_spans(
            *exprs,
            i as nat,
        ));
        i += 1;
    }
    assert(spans@ + Seq::<Span>::empty() == spans@);
    spans
}

fn fold_fields_ident_spans(fields: &Punctuated<ExprStructField, Span>) -> (spans: Vec<Span>)
    ensures
        spans@ == fields_ident_spans(*fields, 0),
    decreases fields,
{
    let mut spans: Vec<Span> = Vec::new();
    let values = fold_punctuated(fields);
    let n: usize = values.len();
    let mut i: usize = 0;
    while i < n
        invariant
            n == values@.len(),
            n == fields.count(),
            i <= n,
            forall|k: int| 0 <= k < n ==> *#[trigger] values@[k] == fields.value(k),
            spans@ + fields_ident_spans(*fields, i as nat) == fields_ident_spans(*fields, 0),
        decreases n - i,
    {
        let ghost before = spans@;
        if let Some(value) = &values[i].expr_opt {
            let mut found = fold_expr_ident_spans(value);
            spans.append(&mut found);
        } else {
            spans.push(values[i].field_name.span);
        }
        assert(spans@ + fields_ident_spans(*fields, (i + 1) as nat) == before + fields_ident_spans(
            *fields,
            i as nat,
        ));
        i += 1;
    }
    assert(spans@ + Seq::<Span>::empty() == spans@);
    spans
}

/// Collects the source ranges of the names an expression mentions.
pub fn fold_expr_ident_spans(expr: &Expr) -> (spans: Vec<Span>)
    ensures
        spans@ == expr_ident_spans(*expr),
    decreases expr,
{
    let mut spans: Vec<Span> = Vec::new();
    match &expr.kind {
        ExprKind::Path(_) => {
            spans.push(expr.span);
        },
        ExprKind::AbiCast { address } => {
            spans = fold_expr_ident_spans(address);
        },
        ExprKind::Struct { fields, .. } => {
            spans = fold_fields_ident_spans(fields);
        },
        ExprKind::Tuple(ExprTupleDescriptor::Cons { head, tail }) => {
            spans = fold_expr_ident_spans(head);
            let mut rest = fold_exprs_ident_spans(tail);
            spans.append(&mut rest);
        },
        ExprKind::Parens(inner) => {
            spans = fold_expr_ident_spans(inner);
        },
        ExprKind::Array(ExprArrayDescriptor::Sequence(sequence)) => {
            spans = fold_exprs_ident_spans(sequence);
        },
        ExprKind::Array(ExprArrayDescriptor::Repeat { value, length }) => {
            spans = fold_expr_ident_spans(value);
            let mut rest = fold_expr_ident_spans(length);
            spans.append(&mut rest);
        },
        ExprKind::Return { expr_opt: Some(inner) } => {
            spans = fold_expr_ident_spans(inner);
        },
        ExprKind::FuncApp { func, args } => {
            spans = fold_expr_ident_spans(func);
            let mut rest = fold_exprs_ident_spans(args);
            spans.append(&mut rest);
        },
        ExprKind::Index { target, arg } => {
            spans = fold_expr_ident_spans(target);
            let mut rest = fold_expr_ident_spans(arg);
            spans.append(&mut rest);
        },
        ExprKind::MethodCall { target, args, .. } => {
            spans = fold_expr_ident_spans(target);
            let mut rest = fold_exprs_ident_spans(args);
            spans.append(&mut rest);
        },
        ExprKind::FieldProjection { target, .. } => {
            spans.push(expr.span);
            let mut rest = fold_expr_ident_spans(target);
            spans.append(&mut rest);
        },
        ExprKind::TupleFieldProjection { target } => {
            spans.push(expr.span);
            let mut rest = fold_expr_ident_spans(target);
            spans.append(&mut rest);
        },
        ExprKind::Unary { expr: inner, .. } => {
            spans = fold_expr_ident_spans(inner);
        },
        ExprKind::Binary { lhs, rhs, .. } => {
            spans = fold_expr_ident_spans(lhs);
            let mut rest = fold_expr_ident_spans(rhs);
            spans.append(&mut rest);
        },
        ExprKind::Reassignment { assignable, expr: inner } => {
            spans.push(assignable.span);
            let mut rest = fold_expr_ident_spans(inner);
            spans.append(&mut rest);
        },
        _ => {},
    }
    spans
}

/// The chain of names an assignment target is made of: `a.b[i].c` gives
/// `[a, b, c]`.
pub open spec fn assignable_idents(assignable: Assignable) -> Seq<Ident>
    decreases assignable,
{
    match assignable.kind {
        AssignableKind::Var(ident) => seq![ident],
        AssignableKind::Index { target, .. } => assignable_idents(*target),
        AssignableKind::FieldProjection { target, name } => assignable_idents(*target).push(name),
        AssignableKind::TupleFieldProjection { target } => assignable_idents(*target),
    }
}

/// The chain of names of an assignment target.
pub fn fold_assignable_idents(assignable: &Assignable) -> (result: Vec<Ident>)
    ensures
        result@ == assignable_idents(*assignable),
    decreases assignable,
{
    match &assignable.kind {
        AssignableKind::Var(ident) => {
            let mut result: Vec<Ident> = Vec::new();
            result.push(ident.clone());
            result
        },
        AssignableKind::Index { target, .. } => fold_assignable_idents(target),
        AssignableKind::FieldProjection { target, name } => {
            let mut result = fold_assignable_idents(target);
            result.push(name.clone());
            result
        },
        AssignableKind::TupleFieldProjection { target } => fold_assignable_idents(target),
    }
}

/// The names a pattern mentions, from left to right: bound names, a constant's
/// path, and a struct field written in shorthand.  The path of a constructor or
/// of a struct pattern names a type and is left out.
pub open spec fn pattern_idents(pattern: Pattern) -> Seq<Ident>
    decreases pattern, 0nat,
{
    match pattern {
        Pattern::Or { lhs, rhs } => pattern_idents(*lhs) + pattern_idents(*rhs),
        Pattern::Wildcard => Seq::empty(),
        Pattern::AmbiguousSingleIdent(ident) => seq![ident],
        Pattern::Var { name, .. } => seq![name],
        Pattern::Literal => Seq::empty(),
        Pattern::Constant(path) => path_idents(path),
        Pattern::Constructor { args, .. } => patterns_idents(args, 0),
        Pattern::Struct { fields, .. } => pattern_fields_idents(fields, 0),
        Pattern::Tuple(patterns) => patterns_idents(patterns, 0),
        Pattern::Error => Seq::empty(),
    }
}

/// The names of the patterns of `patterns` from the `from`-th on.
pub open spec fn patterns_idents(patterns: Punctuated<Pattern, Span>, from: nat) -> Seq<Ident>
    decreases patterns, patterns.count() - from,
{
    if from >= patterns.count() {
        Seq::empty()
    } else if from < patterns.value_separator_pairs@.len() {
        pattern_idents(patterns.value_separator_pairs@[from as int].0) + patterns_idents(
            patterns,
            from + 1,
        )
    } else {
        pattern_idents(*patterns.final_value_opt->0)
    }
}

/// The names of the fields of a struct pattern from the `from`-th on: those of
/// a field's pattern, or the field's own name where none is given; `..` has
/// none.
pub open spec fn pattern_fields_idents(
    fields: Punctuated<PatternStructField, Span>,
    from: nat,
) -> Seq<Ident>
    decreases fields, fields.count() - from,
{
    if from >= fields.count() {
        Seq::empty()
    } else if from < fields.value_separator_pairs@.len() {
        (match fields.value_separator_pairs@[from as int].0 {
            PatternStructField::Rest => Seq::empty(),
            PatternStructField::Field { field_name, pattern_opt: Some(pattern) } => pattern_idents(
                *pattern,
            ),
            PatternStructField::Field { field_name, pattern_opt: None } => seq![field_name],
        }) + pattern_fields_idents(fields, from + 1)
    } else {
        match *fields.final_value_opt->0 {
            PatternStructField::Rest => Seq::empty(),
            PatternStructField::Field { field_name, pattern_opt: Some(pattern) } => pattern_idents(
                *pattern,
            ),
            PatternStructField::Field { field_name, pattern_opt: None } => seq![field_name],
        }
    }
}

fn fold_patterns_idents(patterns: &Punctuated<Pattern, Span>) -> (result: Vec<Ident>)
    ensures
        result@ == patterns_idents(*patterns, 0),
    decreases patterns,
{
    let mut result: Vec<Ident> = Vec::new();
    let values = fold_punctuated(patterns);
    let n: usize = values.len();
    let mut i: usize = 0;
    while i < n
        invariant
            n == values@.len(),
            n == patterns.count(),
            i <= n,
            forall|k: int| 0 <= k < n ==> *#[trigger] values@[k] == patterns.value(k),
            result@ + patterns_idents(*patterns, i as nat) == patterns_idents(*patterns, 0),
        decreases n - i,
    {
        let ghost before = result@;
        let mut found = fold_pattern_idents(values[i]);
        result.append(&mut found);
        assert(result@ + patterns_idents(*patterns, (i + 1) as nat) == before + patterns_idents(
            *patterns,
            i as nat,
        ));
        i += 1;
    }
    assert(result@ + Seq::<Ident>::empty() == result@);
    result
}

fn fold_pattern_fields_idents(fields: &Punctuated<PatternStructField, Span>) -> (result: Vec<
    Ident,
>)
    ensures
        result@ == pattern_fields_idents(*fields, 0),
    decreases fields,
{
    let mut result: Vec<Ident> = Vec::new();
    let values = fold_punctuated(fields);
    let n: usize = values.len();
    let mut i: usize = 0;
    while i < n
        invariant
            n == values@.len(),
            n == fields.count(),
            i <= n,
            forall|k: int| 0 <= k < n ==> *#[trigger] values@[k] == fields.value(k),
            result@ + pattern_fields_idents(*fields, i as nat) == pattern_fields_idents(*fields, 0),
        decreases n - i,
    {
        let ghost before = result@;
        match values[i] {
            PatternStructField::Rest => {},
            PatternStructField::Field { field_name, pattern_opt } => match pattern_opt {
                Some(pattern) => {
                    let mut found = fold_pattern_idents(pattern);
                    result.append(&mut found);
                },
                None => {
                    result.push(field_name.clone());
                },
            },
        }
        assert(result@ + pattern_fields_idents(*fields, (i + 1) as nat) == before
            + pattern_fields_idents(*fields, i as nat));
        i += 1;
    }
    assert(result@ + Seq::<Ident>::empty() == result@);
    result
}

/// Collects the names a pattern mentions.
pub fn fold_pattern_idents(pattern: &Pattern) -> (result: Vec<Ident>)
    ensures
        result@ == pattern_idents(*pattern),
    decreases pattern,
{
    match pattern {
        Pattern::Or { lhs, rhs } => {
            let mut result = fold_pattern_idents(lhs);
            let mut rest = fold_pattern_idents(rhs);
            result.append(&mut rest);
            result
        },
        Pattern::Wildcard => Vec::new(),
        Pattern::AmbiguousSingleIdent(ident) => {
            let mut result: Vec<Ident> = Vec::new();
            result.push(ident.clone());
            result
        },
        Pattern::Var { name, .. } => {
            let mut result: Vec<Ident> = Vec::new();
            result.push(name.clone());
            result
        },
        Pattern::Literal => Vec::new(),
        Pattern::Constant(path) => fold_path_idents(path),
        Pattern::Constructor { args, .. } => fold_patterns_idents(args),
        Pattern::Struct { fields, .. } => fold_pattern_fields_idents(fields),
        Pattern::Tuple(patterns) => fold_patterns_idents(patterns),
        Pattern::Error => Vec::new(),
    }
}

/// Whether `attribute` has an argument called `arg_name`.
pub open spec fn attribute_has_arg(attribute: Attribute, arg_name: Seq<char>) -> bool {
    attribute.args matches Some(args) && exists|j: int|
        0 <= j < args.count() && (#[trigger] args.value(j)).name.name@ == arg_name
}

/// Whether `attribute` is called `name` and has every argument of
/// `arg_names`.  An attribute written without an argument list is taken to
/// have them all.
pub open spec fn attribute_matches(attribute: Attribute, name: Seq<char>, arg_names: Seq<&str>) -> bool {
    &&& attribute.name.name@ == name
    &&& (arg_names.len() == 0 || attribute.args is None || forall|k: int|
        0 <= k < arg_names.len() ==> attribute_has_arg(attribute, (#[trigger] arg_names[k])@))
}

/// Whether one of the attributes of `decl` matches.
pub open spec fn decl_has_attribute(decl: AttributeDecl, name: Seq<char>, arg_names: Seq<&str>) -> bool {
    exists|k: int|
        0 <= k < decl.attribute.count() && attribute_matches(
            #[trigger] decl.attribute.value(k),
            name,
            arg_names,
        )
}

/// Whether one of the attributes of one of `decls` matches.
pub open spec fn decls_have_attribute(
    decls: Seq<AttributeDecl>,
    name: Seq<char>,
    arg_names: Seq<&str>,
) -> bool {
    exists|d: int| 0 <= d < decls.len() && decl_has_attribute(#[trigger] decls[d], name, arg_names)
}

fn check_attribute_arg(attribute: &Attribute, attribute_arg_name: &str) -> (r: bool)
    ensures
        r == attribute_has_arg(*attribute, attribute_arg_name@),
{
    match &attribute.args {
        Some(args) => {
            let values = fold_punctuated(args);
            let n: usize = values.len();
            let mut j: usize = 0;
            while j < n
                invariant
                    attribute.args == Some(*args),
                    n == values@.len(),
                    n == args.count(),
                    j <= n,
                    forall|k: int| 0 <= k < n ==> *#[trigger] values@[k] == args.value(k),
                    forall|k: int|
                        0 <= k < j ==> (#[trigger] args.value(k)).name.name@ != attribute_arg_name@,
                decreases n - j,
            {
                if text_is(&values[j].name.name, attribute_arg_name) {
                    assert(*values@[j as int] == args.value(j as int));
                    return true;
                }
                j += 1;
            }
            false
        },
        None => false,
    }
}

#[inline]
fn check_attribute(attribute: &Attribute, attribute_name: &str, attribute_arg_names: &[&str]) -> (r:
    bool)
    ensures
        r == attribute_matches(*attribute, attribute_name@, attribute_arg_names@),
{
    if !text_is(&attribute.name.name, attribute_name) {
        return false;
    }
    if attribute_arg_names.len() == 0 {
        return true;
    }
    if attribute.args.is_none() {
        return true;
    }
    let n: usize = attribute_arg_names.len();
    let mut i: usize = 0;
    while i < n
        invariant
            attribute.name.name@ == attribute_name@,
            attribute.args is Some,
            n == attribute_arg_names@.len(),
            i <= n,
            forall|k: int|
                0 <= k < i ==> attribute_has_arg(*attribute, (#[trigger] attribute_arg_names@[k])@),
        decreases n - i,
    {
        if !check_attribute_arg(attribute, attribute_arg_names[i]) {
            assert(!attribute_has_arg(*attribute, attribute_arg_names@[i as int]@));
            return false;
        }
        i += 1;
    }
    true
}

/// Whether one of the attributes in `attribute_decls` is called
/// `attribute_name` and has every argument of `attribute_arg_names`.
pub fn check_attribute_decls(
    attribute_decls: &[AttributeDecl],
    attribute_name: &str,
    attribute_arg_names: &[&str],
) -> (r: bool)
    ensures
        r == decls_have_attribute(attribute_decls@, attribute_name@, attribute_arg_names@),
{
    let n: usize = attribute_decls.len();
    let mut d: usize = 0;
    while d < n
        invariant
            n == attribute_decls@.len(),
            d <= n,
            forall|k: int|
                0 <= k < d ==> !decl_has_attribute(
                    #[trigger] attribute_decls@[k],
                    attribute_name@,
                    attribute_arg_names@,
                ),
        decreases n - d,
    {
        let attributes = fold_punctuated(&attribute_decls[d].attribute);
        let m: usize = attributes.len();
        let mut k: usize = 0;
        while k < m
            invariant
                d < n,
                n == attribute_decls@.len(),
                m == attributes@.len(),
                m == attribute_decls@[d as int].attribute.count(),
                k <= m,
                forall|j: int|
                    0 <= j < m ==> *#[trigger] attributes@[j] == attribute_decls@[d as int].attribute.value(
                        j,
                    ),
                forall|j: int|
                    0 <= j < k ==> !attribute_matches(
                        #[trigger] attribute_decls@[d as int].attribute.value(j),
                        attribute_name@,
                        attribute_arg_names@,
                    ),
            decreases m - k,
        {
            if check_attribute(attributes[k], attribute_name, attribute_arg_names) {
                return true;
            }
            k += 1;
        }
        d += 1;
    }
    false
}

/// The name a statement binds, where the statement is a `let` of a plain
/// variable pattern.
pub open spec fn variable_binding_ident(statement: Statement) -> Option<Ident> {
    match statement {
        Statement::Let(statement_let) => match statement_let.pattern {
            Pattern::Var { name, .. } => Some(name),
            _ => None,
        },
        _ => None,
    }
}

/// The name bound by a `let` of a plain variable pattern.
pub fn statement_to_variable_binding_ident(statement: &Statement) -> (result: Option<Ident>)
    ensures
        result == variable_binding_ident(*statement),
{
    match statement {
        Statement::Let(statement_let) => match &statement_let.pattern {
            Pattern::Var { name, .. } => Some(name.clone()),
            _ => None,
        },
        _ => None,
    }
}

/// Whether a chain of names is an access to a storage slot: at least three
/// links, the first of them `storage`.
pub open spec fn is_storage_chain(idents: Seq<Ident>) -> bool {
    idents.len() >= 3 && idents[0].name@ == "storage"@
}

/// The storage slot and the local name of a statement
/// `let mut name = storage.slot.read();`.
pub open spec fn storage_read_binding_idents(statement: Statement) -> Option<(Ident, Ident)> {
    match statement {
        Statement::Let(statement_let) => match statement_let.pattern {
            Pattern::Var { mutable: true, name } => {
                let idents = expr_idents(statement_let.expr);
                if is_storage_chain(idents) && idents.last().name@ == "read"@ {
                    Some((idents[1], name))
                } else {
                    None
                }
            },
            _ => None,
        },
        _ => None,
    }
}

/// The storage slot read and the mutable local it is bound to.
pub fn statement_to_storage_read_binding_idents(statement: &Statement) -> (result: Option<
    (Ident, Ident),
>)
    ensures
        result == storage_read_binding_idents(*statement),
{
    match statement {
        Statement::Let(statement_let) => match &statement_let.pattern {
            Pattern::Var { mutable: true, name } => {
                let storage_idents = fold_expr_idents(&statement_let.expr);
                if storage_idents.len() < 3 {
                    return None;
                }
                if !text_is(&storage_idents[0].name, "storage") {
                    return None;
                }
                if !text_is(&storage_idents[storage_idents.len() - 1].name, "read") {
                    return None;
                }
                Some((storage_idents[1].clone(), name.clone()))
            },
            _ => None,
        },
        _ => None,
    }
}

/// The chain of names a statement assigns to, where the statement is an
/// assignment.
pub open spec fn reassignment_idents(statement: Statement) -> Option<Seq<Ident>> {
    match statement {
        Statement::Expr { expr } => match expr.kind {
            ExprKind::Reassignment { assignable, .. } => Some(assignable_idents(assignable)),
            _ => None,
        },
        _ => None,
    }
}

/// The chain of names an assignment statement assigns to.
pub fn statement_to_reassignment_idents(statement: &Statement) -> (result: Option<Vec<Ident>>)
    ensures
        match result {
            Some(idents) => reassignment_idents(*statement) == Some(idents@),
            None => reassignment_idents(*statement) is None,
        },
{
    match statement {
        Statement::Expr { expr } => match &expr.kind {
            ExprKind::Reassignment { assignable, .. } => Some(fold_assignable_idents(assignable)),
            _ => None,
        },
        _ => None,
    }
}

/// The storage slot and the written name of a statement
/// `storage.slot.write(name);` or `storage.slot.insert(.., name);`: the call
/// must be the whole statement, and its last argument a single name.
pub open spec fn storage_write_idents(statement: Statement) -> Option<(Ident, Ident)> {
    match statement {
        Statement::Expr { expr } => match expr.kind {
            ExprKind::MethodCall { args, .. } => {
                let idents = expr_idents(expr);
                if is_storage_chain(idents) && (idents.last().name@ == "write"@
                    || idents.last().name@ == "insert"@) && args.count() > 0 && expr_idents(
                    args.value(args.count() - 1),
                ).len() == 1 {
                    Some((idents[1], expr_idents(args.value(args.count() - 1))[0]))
                } else {
                    None
                }
            },
            _ => None,
        },
        _ => None,
    }
}

/// The storage slot written and the name written to it.
pub fn statement_to_storage_write_idents(statement: &Statement) -> (result: Option<(Ident, Ident)>)
    ensures
        result == storage_write_idents(*statement),
{
    match statement {
        Statement::Expr { expr } => match &expr.kind {
            ExprKind::MethodCall { args, .. } => {
                let storage_idents = fold_expr_idents(expr);
                if storage_idents.len() < 3 {
                    return None;
                }
                if !text_is(&storage_idents[0].name, "storage") {
                    return None;
                }
                let method = &storage_idents[storage_idents.len() - 1].name;
                if !(text_is(method, "write") || text_is(method, "insert")) {
                    return None;
                }
                let args = fold_punctuated(args);
                if args.len() == 0 {
                    return None;
                }
                let variable_idents = fold_expr_idents(args[args.len() - 1]);
                if variable_idents.len() != 1 {
                    return None;
                }
                Some((storage_idents[1].clone(), variable_idents[0].clone()))
            },
            _ => None,
        },
        _ => None,
    }
}

/// Whether `expr` is a call of the function written as `name`.
pub open spec fn is_call_of(expr: Expr, name: Seq<char>) -> bool {
    expr.kind matches ExprKind::FuncApp { func, .. } && func.text@ == name
}

/// The conditions a `require(..)` call asserts: its arguments.
pub open spec fn require_args(expr: Expr) -> Option<Seq<Expr>> {
    match expr.kind {
        ExprKind::FuncApp { func, args } => if func.text@ == "require"@ {
            Some(args.values())
        } else {
            None
        },
        _ => None,
    }
}

/// The arguments of `expr` where it is a call of `require`.
pub fn get_require_args(expr: &Expr) -> (result: Option<Vec<&Expr>>)
    ensures
        match result {
            Some(args) => require_args(*expr) matches Some(expected) && args@.len()
                == expected.len() && forall|k: int|
                0 <= k < args@.len() ==> *#[trigger] args@[k] == expected[k],
            None => require_args(*expr) is None,
        },
{
    match &expr.kind {
        ExprKind::FuncApp { func, args } => {
            if text_is(&func.text, "require") {
                Some(fold_punctuated(args))
            } else {
                None
            }
        },
        _ => None,
    }
}

/// Whether a statement is a call of `revert`.
pub open spec fn is_revert_statement(statement: Statement) -> bool {
    statement matches Statement::Expr { expr } && is_call_of(expr, "revert"@)
}

/// Whether a block reverts whenever it is entered: one of its own statements,
/// or its final expression, is a call of `revert`.
pub open spec fn has_revert(block: CodeBlock) -> bool {
    ||| exists|i: int|
        0 <= i < block.statements@.len() && is_revert_statement(#[trigger] block.statements@[i])
    ||| block.final_expr_opt matches Some(expr) && is_call_of(*expr, "revert"@)
}

fn expr_is_call_of(expr: &Expr, name: &str) -> (r: bool)
    ensures
        r == is_call_of(*expr, name@),
{
    match &expr.kind {
        ExprKind::FuncApp { func, .. } => text_is(&func.text, name),
        _ => false,
    }
}

/// Whether a block reverts whenever it is entered.
pub fn block_has_revert(block: &CodeBlock) -> (r: bool)
    ensures
        r == has_revert(*block),
{
    let n: usize = block.statements.len();
    let mut i: usize = 0;
    while i < n
        invariant
            n == block.statements@.len(),
            i <= n,
            forall|k: int| 0 <= k < i ==> !is_revert_statement(#[trigger] block.statements@[k]),
        decreases n - i,
    {
        if let Statement::Expr { expr } = &block.statements[i] {
            if expr_is_call_of(expr, "revert") {
                assert(is_revert_statement(block.statements@[i as int]));
                return true;
            }
        }
        i += 1;
    }
    match &block.final_expr_opt {
        Some(expr) => expr_is_call_of(expr, "revert"),
        None => false,
    }
}

/// The name under which a `use` tree brings in the item whose path is
/// `path[from..]`: the last segment where the tree names it, the alias where
/// the tree renames it, the first hit among the members of a group.  A glob
/// brings in no name of its own.
pub open spec fn use_tree_name(tree: UseTree, path: Seq<&str>, from: nat) -> Option<Seq<char>>
    decreases tree, 0nat,
{
    match tree {
        UseTree::Group { imports } => use_trees_name(imports, 0, path, from),
        UseTree::Name { name } => if from + 1 == path.len() && name.name@ == path[from as int]@ {
            Some(name.name@)
        } else {
            None
        },
        UseTree::Rename { name, alias } => if from + 1 == path.len() && name.name@
            == path[from as int]@ {
            Some(alias.name@)
        } else {
            None
        },
        UseTree::Glob => None,
        UseTree::Path { prefix, suffix } => if from + 1 < path.len() && prefix.name@
            == path[from as int]@ {
            use_tree_name(*suffix, path, from + 1)
        } else {
            None
        },
        UseTree::Error => None,
    }
}

/// The first name found among the trees of `trees` from the `at`-th on.
pub open spec fn use_trees_name(
    trees: Punctuated<UseTree, Span>,
    at: nat,
    path: Seq<&str>,
    from: nat,
) -> Option<Seq<char>>
    decreases trees, trees.count() - at,
{
    if at >= trees.count() {
        None
    } else if at < trees.value_separator_pairs@.len() {
        let found = use_tree_name(trees.value_separator_pairs@[at as int].0, path, from);
        if found is Some {
            found
        } else {
            use_trees_name(trees, at + 1, path, from)
        }
    } else {
        use_tree_name(*trees.final_value_opt->0, path, from)
    }
}

/// Whether an optional string is the given optional text.
pub open spec fn is_text(result: Option<String>, expected: Option<Seq<char>>) -> bool {
    match result {
        Some(text) => expected == Some(text@),
        None => expected is None,
    }
}

fn use_trees_to_name(imports: &Punctuated<UseTree, Span>, path: &[&str], from: usize) -> (result:
    Option<String>)
    ensures
        is_text(result, use_trees_name(*imports, 0, path@, from as nat)),
    decreases imports,
{
    let trees = fold_punctuated(imports);
    let n: usize = trees.len();
    let mut i: usize = 0;
    while i < n
        invariant
            n == trees@.len(),
            n == imports.count(),
            i <= n,
            forall|k: int| 0 <= k < n ==> *#[trigger] trees@[k] == imports.value(k),
            use_trees_name(*imports, 0, path@, from as nat) == use_trees_name(
                *imports,
                i as nat,
                path@,
                from as nat,
            ),
        decreases n - i,
    {
        let found = use_tree_to_name(trees[i], path, from);
        if found.is_some() {
            return found;
        }
        i += 1;
    }
    None
}

/// The name under which `tree` brings in the item at `path[from..]`.
pub fn use_tree_to_name(tree: &UseTree, path: &[&str], from: usize) -> (result: Option<String>)
    ensures
        is_text(result, use_tree_name(*tree, path@, from as nat)),
    decreases tree,
{
    match tree {
        UseTree::Group { imports } => use_trees_to_name(imports, path, from),
        UseTree::Name { name } => {
            if from < path.len() && from + 1 == path.len() && text_is(&name.name, path[from]) {
                Some(name.name.clone())
            } else {
                None
            }
        },
        UseTree::Rename { name, alias } => {
            if from < path.len() && from + 1 == path.len() && text_is(&name.name, path[from]) {
                Some(alias.name.clone())
            } else {
                None
            }
        },
        UseTree::Glob => None,
        UseTree::Path { prefix, suffix } => {
            if from < path.len() && from + 1 < path.len() && text_is(&prefix.name, path[from]) {
                use_tree_to_name(suffix, path, from + 1)
            } else {
                None
            }
        },
        UseTree::Error => None,
    }
}

/// How a finding names a function: `` The `name` function ``, or
/// `` The `Type::name` function `` inside an implementation of `Type`.
pub open spec fn item_location(impl_ty: Option<Seq<char>>, fn_name: Seq<char>) -> Seq<char> {
    match impl_ty {
        Some(ty) => "The `"@ + ty + "::"@ + fn_name + "` function"@,
        None => "The `"@ + fn_name + "` function"@,
    }
}

/// The words with which a finding names a function.
pub fn get_item_location(impl_ty: Option<&String>, fn_name: &String) -> (result: String)
    ensures
        result@ == item_location(
            match impl_ty {
                Some(ty) => Some(ty@),
                None => None,
            },
            fn_name@,
        ),
{
    let mut result = String::from_str("The `");
    if let Some(ty) = impl_ty {
        result.append(ty.as_str());
        result.append("::");
    }
    result.append(fn_name.as_str());
    result.append("` function");
    result
}

} // verus!
