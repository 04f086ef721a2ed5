//! What holds of the analysis of unprotected storage writes, whatever the
//! module.

use vstd::prelude::*;
use crate::ast::{
    BinaryOp, Expr, ExprKind, Ident, IfCondition, ItemFn, Module, Pattern, Span, Statement,
    StatementLet, UseTree,
};
use crate::detectors::unprotected_storage_variables::{
    after_call, after_expr, after_let, after_statement, after_use, block_vars, bound_vars,
    call_visited, checks_msg_sender, contains_msg_sender_var, enclosing_fn, enclosing_impl_ty,
    finding_message, fn_facts, fn_left, guard_conditions, is_msg_sender_call, is_msg_sender_name,
    is_msg_sender_var, is_unprotected, latest_binding, lemma_module_index, lemma_with_module,
    module_facts, module_index, resolve_callee, some_checks_msg_sender, touched, with_module,
    FnFacts, ModuleFacts, ModulesFacts, PropagationVisitor, UnprotectedStorageVariablesVisitor,
    VarFact,
};
use crate::report::{
    resolve_line, Error, ErrorView, FindingView, Project, Severity, SourceFile,
};
use crate::text::{lemma_insert_all, lemma_insert_sorted, sorted};
use crate::utils::{has_revert, item_location, pattern_idents, require_args, storage_write_idents};
use crate::visitor_laws::{
    fits, lemma_driven_contains_step, lemma_driven_keeps_along, lemma_driven_split,
    lemma_kept_before, lemma_module_well_scoped, lemma_step_fits, scope_before, state_before,
};
use crate::visitor::{
    analysis, driven, follows, lemma_driven_findings, lemma_driven_keeps, lemma_driven_succeeds,
    module_nodes, scope_after, scope_at, top_scope, AstVisitor, Node, Outcome, Scope,
};

verus! {

/// Every function's written slots are in ascending order, each once.
pub open spec fn all_sorted(module: ModuleFacts) -> bool {
    forall|span: Span| #[trigger] module.fns.dom().contains(span) ==> sorted(module.fns[span].written)
}

/// Nothing that was known of a function is lost: a check stays, so does every
/// written slot, and so does every block with its bindings, after which more
/// may have been bound.
pub open spec fn grown(before: FnFacts, after: FnFacts) -> bool {
    &&& before.checked ==> after.checked
    &&& forall|name: Seq<char>| before.written.contains(name) ==> after.written.contains(name)
    &&& forall|block: Span| #[trigger]
        before.blocks.dom().contains(block) ==> after.blocks.dom().contains(block)
            && before.blocks[block].is_prefix_of(after.blocks[block])
}

/// Nothing that was known of a module is lost: every name `msg_sender` could
/// be called by stays, every function on record stays on record, and nothing
/// that was known of any function is lost.
pub open spec fn module_grown(before: ModuleFacts, after: ModuleFacts) -> bool {
    &&& before.names.is_prefix_of(after.names)
    &&& forall|span: Span| #[trigger]
        before.fns.dom().contains(span) ==> after.fns.dom().contains(span)
    &&& forall|span: Span| grown(#[trigger] fn_facts(before, span), fn_facts(after, span))
}

/// Growing is transitive.
pub proof fn lemma_module_grown_transitive(first: ModuleFacts, second: ModuleFacts, third: ModuleFacts)
    requires
        module_grown(first, second),
        module_grown(second, third),
    ensures
        module_grown(first, third),
{
    assert forall|span: Span| grown(#[trigger] fn_facts(first, span), fn_facts(third, span)) by {
        let a = fn_facts(first, span);
        let b = fn_facts(second, span);
        let c = fn_facts(third, span);
        assert(grown(a, b) && grown(b, c));
        assert forall|block: Span| #[trigger] a.blocks.dom().contains(block) implies c.blocks.dom().contains(
            block,
        ) && a.blocks[block].is_prefix_of(c.blocks[block]) by {
            assert(b.blocks.dom().contains(block));
        }
    }
}

/// A function that writes storage and does not check the caller is reported
/// exactly once when it is left: one finding of high severity at the line of
/// its signature, which lists its written slots, in ascending order and each
/// once, between backticks and joined by commas.
pub proof fn lemma_unprotected_function_is_reported<'a>(
    module_facts: ModuleFacts,
    files: Seq<SourceFile>,
    module: &'a Module,
    scope: Scope<'a>,
    item_fn: &'a ItemFn,
    line: nat,
)
    requires
        all_sorted(module_facts),
        is_unprotected(fn_facts(module_facts, item_fn.fn_signature.span)),
        resolve_line(files, module.path@, item_fn.fn_signature.span) == Ok::<nat, ErrorView>(line),
    ensures
        fn_left(module_facts, files, module, scope, item_fn).error is None,
        fn_left(module_facts, files, module, scope, item_fn).findings == seq![
            FindingView {
                path: module.path@,
                line,
                severity: Severity::High,
                message: finding_message(
                    item_location(enclosing_impl_ty(scope), item_fn.fn_signature.name.name@),
                    fn_facts(module_facts, item_fn.fn_signature.span).written,
                ),
            },
        ],
        sorted(fn_facts(module_facts, item_fn.fn_signature.span).written),
{
    let span = item_fn.fn_signature.span;
    assert(module_facts.fns.dom().contains(span));
}

/// A function that writes no storage is not reported, whether it checks the
/// caller or not, and leaving it cannot fail.
pub proof fn lemma_function_without_writes_is_not_reported<'a>(
    module_facts: ModuleFacts,
    files: Seq<SourceFile>,
    module: &'a Module,
    scope: Scope<'a>,
    item_fn: &'a ItemFn,
)
    requires
        fn_facts(module_facts, item_fn.fn_signature.span).written.len() == 0,
    ensures
        fn_left(module_facts, files, module, scope, item_fn).findings.len() == 0,
        fn_left(module_facts, files, module, scope, item_fn).error is None,
{
}

/// A function that checks the caller is not reported, whatever it writes.
pub proof fn lemma_checked_function_is_not_reported<'a>(
    module_facts: ModuleFacts,
    files: Seq<SourceFile>,
    module: &'a Module,
    scope: Scope<'a>,
    item_fn: &'a ItemFn,
)
    requires
        fn_facts(module_facts, item_fn.fn_signature.span).checked,
    ensures
        fn_left(module_facts, files, module, scope, item_fn).findings.len() == 0,
        fn_left(module_facts, files, module, scope, item_fn).error is None,
{
}

/// A storage write adds its slot to what the function writes, and the written
/// slots stay in ascending order.
pub proof fn lemma_statement_records_write(module: ModuleFacts, fn_span: Span, statement: Statement)
    requires
        all_sorted(module),
    ensures
        all_sorted(after_statement(module, fn_span, statement)),
        storage_write_idents(statement) matches Some((slot, _)) ==> fn_facts(
            after_statement(module, fn_span, statement),
            fn_span,
        ).written.contains(slot.name@),
        forall|span: Span|
            grown(
                #[trigger] fn_facts(module, span),
                fn_facts(after_statement(module, fn_span, statement), span),
            ),
{
    let facts = fn_facts(module, fn_span);
    let after = after_statement(module, fn_span, statement);
    assert(sorted(facts.written));
    if let Some((slot, _)) = storage_write_idents(statement) {
        lemma_insert_sorted(facts.written, slot.name@);
    }
    assert forall|span: Span| #[trigger] after.fns.dom().contains(span) implies sorted(
        after.fns[span].written,
    ) by {
        if span != fn_span {
            assert(module.fns.dom().contains(span));
        }
    }
}

/// A `let` changes neither the check nor the written slots of any function.
pub proof fn lemma_let_keeps_facts(
    module: ModuleFacts,
    fn_span: Span,
    blocks: Seq<Span>,
    statement_let: StatementLet,
)
    requires
        all_sorted(module),
    ensures
        all_sorted(after_let(module, fn_span, blocks, statement_let)),
        forall|span: Span|
            (#[trigger] fn_facts(after_let(module, fn_span, blocks, statement_let), span)).checked
                == fn_facts(module, span).checked && fn_facts(
                after_let(module, fn_span, blocks, statement_let),
                span,
            ).written == fn_facts(module, span).written,
{
    let after = after_let(module, fn_span, blocks, statement_let);
    assert(sorted(fn_facts(module, fn_span).written));
    assert forall|span: Span| #[trigger] after.fns.dom().contains(span) implies sorted(
        after.fns[span].written,
    ) by {
        if span != fn_span {
            assert(module.fns.dom().contains(span));
        }
    }
}

/// An expression never takes a check back and changes no written slots: once
/// checked, a function stays checked.
pub proof fn lemma_expr_keeps_facts(
    module: ModuleFacts,
    fn_span: Option<Span>,
    blocks: Seq<Span>,
    expr: Expr,
)
    requires
        all_sorted(module),
    ensures
        all_sorted(after_expr(module, fn_span, blocks, expr)),
        forall|span: Span|
            grown(
                #[trigger] fn_facts(module, span),
                fn_facts(after_expr(module, fn_span, blocks, expr), span),
            ) && fn_facts(after_expr(module, fn_span, blocks, expr), span).written == fn_facts(
                module,
                span,
            ).written,
{
    let after = after_expr(module, fn_span, blocks, expr);
    if let Some(own) = fn_span {
        assert(sorted(fn_facts(module, own).written));
        assert forall|span: Span| #[trigger] after.fns.dom().contains(span) implies sorted(
            after.fns[span].written,
        ) by {
            if span != own {
                assert(module.fns.dom().contains(span));
            }
        }
    }
}

/// A resolved call gives the caller the check and the written slots of the
/// called function, on top of its own; nothing is lost of any function, and
/// the written slots stay in ascending order.
pub proof fn lemma_call_hands_facts_over(module: ModuleFacts, caller: Span, callee: Span)
    requires
        all_sorted(module),
    ensures
        all_sorted(after_call(module, Some(caller), Some(callee))),
        fn_facts(after_call(module, Some(caller), Some(callee)), caller).checked == (fn_facts(
            module,
            caller,
        ).checked || fn_facts(module, callee).checked),
        forall|name: Seq<char>|
            fn_facts(after_call(module, Some(caller), Some(callee)), caller).written.contains(name)
                <==> (fn_facts(module, caller).written.contains(name) || fn_facts(
                module,
                callee,
            ).written.contains(name)),
        forall|span: Span|
            grown(
                #[trigger] fn_facts(module, span),
                fn_facts(after_call(module, Some(caller), Some(callee)), span),
            ),
{
    let known = touched(module, callee);
    let after = after_call(module, Some(caller), Some(callee));
    assert(sorted(fn_facts(module, caller).written));
    assert(sorted(fn_facts(module, callee).written));
    assert(fn_facts(known, callee) == fn_facts(module, callee));
    assert(fn_facts(known, caller) == fn_facts(module, caller));
    lemma_insert_all(fn_facts(module, caller).written, fn_facts(module, callee).written);
    assert forall|span: Span| #[trigger] after.fns.dom().contains(span) implies sorted(
        after.fns[span].written,
    ) by {
        if span != caller && span != callee {
            assert(module.fns.dom().contains(span));
        }
    }
}

/// A call whose target is not a function of the module or of the enclosing
/// implementation changes nothing: neither the check nor the written slots of
/// any function.
pub proof fn lemma_unresolved_call_changes_nothing<'a>(
    module_facts: ModuleFacts,
    module: &'a Module,
    scope: Scope<'a>,
    expr: &'a Expr,
)
    requires
        expr.kind matches ExprKind::FuncApp { func, .. } ==> resolve_callee(
            module,
            scope.item_impl,
            func.text@,
        ) is None,
    ensures
        call_visited(module_facts, module, scope, expr) == module_facts,
{
}

/// A name bound by a plain `let name = value;` stands for the caller's
/// identity exactly where the value is a call of `msg_sender` or a variable
/// that stands for it.
pub proof fn lemma_binding_follows_value(
    module: ModuleFacts,
    fn_span: Span,
    blocks: Seq<Span>,
    statement_let: StatementLet,
)
    requires
        blocks.len() > 0,
        statement_let.pattern is AmbiguousSingleIdent,
    ensures
        is_msg_sender_name(
            fn_facts(after_let(module, fn_span, blocks, statement_let), fn_span),
            blocks,
            statement_let.pattern->AmbiguousSingleIdent_0.name@,
        ) == (is_msg_sender_call(module.names, statement_let.expr) || is_msg_sender_var(
            fn_facts(module, fn_span),
            blocks,
            statement_let.expr,
        )),
        after_let(module, fn_span, blocks, statement_let).names == module.names,
{
    let facts = fn_facts(module, fn_span);
    let after = fn_facts(after_let(module, fn_span, blocks, statement_let), fn_span);
    let flag = is_msg_sender_call(module.names, statement_let.expr) || is_msg_sender_var(
        facts,
        blocks,
        statement_let.expr,
    );
    let name = statement_let.pattern->AmbiguousSingleIdent_0.name@;
    let vars = block_vars(after, blocks.last());
    assert(vars == block_vars(facts, blocks.last()) + bound_vars(statement_let.pattern, flag));
    assert(vars.last() == VarFact { name, is_msg_sender: flag });
    assert(latest_binding(vars, name) == Some(flag));
}

/// The module after a run of `let`s of one function in one block.
pub open spec fn after_lets(
    module: ModuleFacts,
    fn_span: Span,
    blocks: Seq<Span>,
    lets: Seq<StatementLet>,
) -> ModuleFacts
    decreases lets.len(),
{
    if lets.len() == 0 {
        module
    } else {
        after_let(after_lets(module, fn_span, blocks, lets.drop_last()), fn_span, blocks, lets.last())
    }
}

/// A chain of plain bindings: the first binds a call of `msg_sender`, and each
/// of the others binds the name bound just before it, as in
/// `let a = msg_sender(); let b = a; let c = b;`.
pub open spec fn is_alias_chain(names: Seq<Seq<char>>, lets: Seq<StatementLet>) -> bool {
    &&& lets.len() > 0
    &&& forall|i: int| 0 <= i < lets.len() ==> (#[trigger] lets[i]).pattern is AmbiguousSingleIdent
    &&& is_msg_sender_call(names, lets[0].expr)
    &&& forall|i: int|
        0 < i < lets.len() ==> (#[trigger] lets[i]).expr.kind is Path && lets[i].expr.text@
            == lets[i - 1].pattern->AmbiguousSingleIdent_0.name@
}

/// Standing for the caller's identity passes along a chain of plain bindings
/// of any length: after the chain, its last name stands for it.
pub proof fn lemma_alias_chain(
    module: ModuleFacts,
    fn_span: Span,
    blocks: Seq<Span>,
    lets: Seq<StatementLet>,
)
    requires
        blocks.len() > 0,
        is_alias_chain(module.names, lets),
    ensures
        after_lets(module, fn_span, blocks, lets).names == module.names,
        is_msg_sender_name(
            fn_facts(after_lets(module, fn_span, blocks, lets), fn_span),
            blocks,
            lets.last().pattern->AmbiguousSingleIdent_0.name@,
        ),
    decreases lets.len(),
{
    let earlier = lets.drop_last();
    let before = after_lets(module, fn_span, blocks, earlier);
    if earlier.len() == 0 {
        assert(lets.last() == lets[0]);
        lemma_binding_follows_value(module, fn_span, blocks, lets.last());
    } else {
        assert forall|i: int| 0 <= i < earlier.len() implies (
        #[trigger] earlier[i]).pattern is AmbiguousSingleIdent by {
            assert(earlier[i] == lets[i]);
        }
        assert(earlier[0] == lets[0]);
        assert forall|i: int| 0 < i < earlier.len() implies (#[trigger] earlier[i]).expr.kind
            is Path && earlier[i].expr.text@ == earlier[i
            - 1].pattern->AmbiguousSingleIdent_0.name@ by {
            assert(earlier[i] == lets[i]);
            assert(earlier[i - 1] == lets[i - 1]);
        }
        lemma_alias_chain(module, fn_span, blocks, earlier);
        let last = lets[lets.len() - 1];
        assert(last.expr.kind is Path);
        assert(earlier.last() == lets[lets.len() - 2]);
        assert(is_msg_sender_var(fn_facts(before, fn_span), blocks, last.expr));
        lemma_binding_follows_value(before, fn_span, blocks, last);
    }
}

/// A guard one of whose conditions is `name == ..`, where `name` stands for
/// the caller's identity, marks its function as checked.
pub proof fn lemma_guard_on_alias_is_a_check(
    module: ModuleFacts,
    fn_span: Span,
    blocks: Seq<Span>,
    name: Seq<char>,
    guard: Expr,
    k: int,
)
    requires
        is_msg_sender_name(fn_facts(module, fn_span), blocks, name),
        0 <= k < guard_conditions(guard).len(),
        guard_conditions(guard)[k].kind matches ExprKind::Binary { op, lhs, rhs } && op
            == BinaryOp::Equal && lhs.kind is Path && lhs.text@ == name,
    ensures
        fn_facts(after_expr(module, Some(fn_span), blocks, guard), fn_span).checked,
{
    let facts = fn_facts(module, fn_span);
    let condition = guard_conditions(guard)[k];
    match condition.kind {
        ExprKind::Binary { op, lhs, rhs } => {
            assert(is_msg_sender_var(facts, blocks, *lhs));
            assert(contains_msg_sender_var(facts, blocks, *lhs));
            assert(contains_msg_sender_var(facts, blocks, condition));
        },
        _ => {},
    }
    assert(checks_msg_sender(module.names, facts, blocks, condition));
    assert(some_checks_msg_sender(module.names, facts, blocks, guard_conditions(guard)));
}

/// After `let a = msg_sender(); let b = a; ..` a guard whose condition
/// compares the last name of the chain marks the function as checked.
pub proof fn lemma_alias_chain_is_a_check(
    module: ModuleFacts,
    fn_span: Span,
    blocks: Seq<Span>,
    lets: Seq<StatementLet>,
    guard: Expr,
    k: int,
)
    requires
        blocks.len() > 0,
        is_alias_chain(module.names, lets),
        0 <= k < guard_conditions(guard).len(),
        guard_conditions(guard)[k].kind matches ExprKind::Binary { op, lhs, rhs } && op
            == BinaryOp::Equal && lhs.kind is Path && lhs.text@
            == lets.last().pattern->AmbiguousSingleIdent_0.name@,
    ensures
        fn_facts(
            after_expr(after_lets(module, fn_span, blocks, lets), Some(fn_span), blocks, guard),
            fn_span,
        ).checked,
{
    lemma_alias_chain(module, fn_span, blocks, lets);
    lemma_guard_on_alias_is_a_check(
        after_lets(module, fn_span, blocks, lets),
        fn_span,
        blocks,
        lets.last().pattern->AmbiguousSingleIdent_0.name@,
        guard,
        k,
    );
}

/// A pattern that is more than a lone identifier binds none of its names to
/// the caller's identity, whatever the bound value is.
pub proof fn lemma_destructuring_binds_no_alias(pattern: Pattern, is_msg_sender: bool)
    requires
        !(pattern is AmbiguousSingleIdent),
    ensures
        bound_vars(pattern, is_msg_sender).len() == pattern_idents(pattern).len(),
        forall|k: int|
            0 <= k < pattern_idents(pattern).len() ==> (#[trigger] bound_vars(
                pattern,
                is_msg_sender,
            )[k]) == (VarFact { name: pattern_idents(pattern)[k].name@, is_msg_sender: false }),
{
}

/// Right after a `let` with such a pattern, none of the names it binds stands
/// for the caller's identity in that block.
pub proof fn lemma_destructured_names_are_no_alias(
    module: ModuleFacts,
    fn_span: Span,
    blocks: Seq<Span>,
    statement_let: StatementLet,
    k: int,
)
    requires
        blocks.len() > 0,
        !(statement_let.pattern is AmbiguousSingleIdent),
        0 <= k < pattern_idents(statement_let.pattern).len(),
    ensures
        !is_msg_sender_name(
            fn_facts(after_let(module, fn_span, blocks, statement_let), fn_span),
            blocks,
            pattern_idents(statement_let.pattern)[k].name@,
        ),
{
    let facts = fn_facts(module, fn_span);
    let after = fn_facts(after_let(module, fn_span, blocks, statement_let), fn_span);
    let flag = is_msg_sender_call(module.names, statement_let.expr) || is_msg_sender_var(
        facts,
        blocks,
        statement_let.expr,
    );
    let name = pattern_idents(statement_let.pattern)[k].name@;
    let had = block_vars(facts, blocks.last());
    let bound = bound_vars(statement_let.pattern, flag);
    lemma_destructuring_binds_no_alias(statement_let.pattern, flag);
    assert(block_vars(after, blocks.last()) == had + bound);
    lemma_latest_binding_among_new(had, bound, name, k);
}

/// Where a name is among the bindings added last, and none of those is an
/// alias, the name's latest binding is no alias.
proof fn lemma_latest_binding_among_new(had: Seq<VarFact>, bound: Seq<VarFact>, name: Seq<char>, k: int)
    requires
        0 <= k < bound.len(),
        bound[k].name == name,
        forall|j: int| 0 <= j < bound.len() ==> !(#[trigger] bound[j]).is_msg_sender,
    ensures
        latest_binding(had + bound, name) == Some(false),
    decreases bound.len(),
{
    let all = had + bound;
    assert(all.last() == bound.last());
    if bound.last().name != name {
        assert(all.drop_last() =~= had + bound.drop_last());
        assert(bound.drop_last()[k] == bound[k]);
        assert forall|j: int| 0 <= j < bound.drop_last().len() implies !(
        #[trigger] bound.drop_last()[j]).is_msg_sender by {
            assert(bound.drop_last()[j] == bound[j]);
        }
        lemma_latest_binding_among_new(had, bound.drop_last(), name, k);
    }
}

/// What an expression does to the facts depends on its guard conditions
/// alone.
pub proof fn lemma_guards_with_same_conditions_agree(
    module: ModuleFacts,
    fn_span: Option<Span>,
    blocks: Seq<Span>,
    one: Expr,
    other: Expr,
)
    requires
        guard_conditions(one) == guard_conditions(other),
    ensures
        after_expr(module, fn_span, blocks, one) == after_expr(module, fn_span, blocks, other),
{
}

/// `if condition { .. revert .. }` guards its function exactly as
/// `require(condition)` does.
pub proof fn lemma_if_revert_is_require(
    module: ModuleFacts,
    fn_span: Option<Span>,
    blocks: Seq<Span>,
    if_revert: Expr,
    require: Expr,
    condition: Expr,
)
    requires
        if_revert.kind matches ExprKind::If(if_expr) && has_revert(if_expr.then_block) && (
        if_expr.condition matches IfCondition::Expr(tested) && *tested == condition),
        require_args(require) == Some(seq![condition]),
    ensures
        guard_conditions(if_revert) == seq![condition],
        guard_conditions(require) == seq![condition],
        after_expr(module, fn_span, blocks, if_revert) == after_expr(
            module,
            fn_span,
            blocks,
            require,
        ),
{
}

/// A guard none of whose conditions checks the caller leaves the function as
/// it was, checked or not; so does an `if` whose first block does not revert.
pub proof fn lemma_guard_without_check_marks_nothing(
    module: ModuleFacts,
    fn_span: Span,
    blocks: Seq<Span>,
    expr: Expr,
)
    requires
        !some_checks_msg_sender(
            module.names,
            fn_facts(module, fn_span),
            blocks,
            guard_conditions(expr),
        ),
    ensures
        fn_facts(after_expr(module, Some(fn_span), blocks, expr), fn_span) == fn_facts(
            module,
            fn_span,
        ),
{
}

/// A condition that is a negation, `!(..)`, is not looked into: it checks the
/// caller only if it is itself a variable or call, which it is not.
pub proof fn lemma_negation_is_no_check(
    names: Seq<Seq<char>>,
    facts: FnFacts,
    blocks: Seq<Span>,
    condition: Expr,
)
    requires
        condition.kind is Unary,
    ensures
        !checks_msg_sender(names, facts, blocks, condition),
{
}

/// Two runs of an analysis with the same outcome, begun on reports that say
/// the same, end on reports that say the same, in the same state, and fail
/// alike.
pub proof fn lemma_same_outcome_same_report<S>(
    outcome: Outcome<S>,
    first_state: S,
    first_before: Project,
    first_after: Project,
    first_result: Result<(), Error>,
    second_state: S,
    second_before: Project,
    second_after: Project,
    second_result: Result<(), Error>,
)
    requires
        follows(outcome, first_state, first_before, first_after, first_result),
        follows(outcome, second_state, second_before, second_after, second_result),
        first_before.report@ == second_before.report@,
    ensures
        first_after.report@ == second_after.report@,
        first_state == second_state,
        first_result is Ok <==> second_result is Ok,
        first_result matches Err(first_error) ==> second_result matches Err(second_error)
            && first_error@ == second_error@,
{
}

/// A `use` changes nothing that is known of any function.
pub proof fn lemma_use_keeps_facts(module: ModuleFacts, tree: UseTree)
    ensures
        after_use(module, tree).fns == module.fns,
{
}

/// Making a record for a function changes nothing that is known of any
/// function.
pub proof fn lemma_touched_keeps_facts(module: ModuleFacts, span: Span)
    requires
        all_sorted(module),
    ensures
        all_sorted(touched(module, span)),
        forall|other: Span| #[trigger] fn_facts(touched(module, span), other) == fn_facts(module, other),
{
    let after = touched(module, span);
    assert forall|other: Span| #[trigger] after.fns.dom().contains(other) implies sorted(
        after.fns[other].written,
    ) by {
        if other != span {
            assert(module.fns.dom().contains(other));
        } else if module.fns.dom().contains(span) {
            assert(sorted(module.fns[span].written));
        }
    }
}

/// A step of the second pass keeps every function's written slots in
/// ascending order.
pub proof fn lemma_second_pass_step_keeps_sorted<'a>(
    module_facts: ModuleFacts,
    files: Seq<SourceFile>,
    module: &'a Module,
    scope: Scope<'a>,
    node: Node<'a>,
)
    requires
        all_sorted(module_facts),
    ensures
        all_sorted(PropagationVisitor::visited(module_facts, files, module, scope, node).state),
{
    match node {
        Node::Expr(expr) => {
            match expr.kind {
                ExprKind::FuncApp { func, .. } => {
                    let callee = resolve_callee(module, scope.item_impl, func.text@);
                    match (enclosing_fn(scope), callee) {
                        (Some(caller), Some(callee)) => {
                            lemma_call_hands_facts_over(module_facts, caller, callee);
                        },
                        (None, Some(callee)) => {
                            lemma_touched_keeps_facts(module_facts, callee);
                        },
                        _ => {},
                    }
                },
                _ => {},
            }
        },
        Node::LeaveFn(item_fn) => {
            lemma_touched_keeps_facts(module_facts, item_fn.fn_signature.span);
        },
        _ => {},
    }
}

/// What a finding of this analysis looks like: of high severity, in the file
/// of the module, and naming one or more written slots in ascending order,
/// each once.
pub open spec fn is_unprotected_finding(finding: FindingView, path: Seq<char>) -> bool {
    &&& finding.severity == Severity::High
    &&& finding.path == path
    &&& exists|location: Seq<char>, written: Seq<Seq<char>>|
        written.len() > 0 && sorted(written) && finding.message == #[trigger] finding_message(
            location,
            written,
        )
}

/// Every finding a step of the second pass makes is such a finding.
pub proof fn lemma_second_pass_step_findings<'a>(
    module_facts: ModuleFacts,
    files: Seq<SourceFile>,
    module: &'a Module,
    scope: Scope<'a>,
    node: Node<'a>,
    k: int,
)
    requires
        all_sorted(module_facts),
        0 <= k < PropagationVisitor::visited(module_facts, files, module, scope, node).findings.len(),
    ensures
        is_unprotected_finding(
            PropagationVisitor::visited(module_facts, files, module, scope, node).findings[k],
            module.path@,
        ),
{
    match node {
        Node::LeaveFn(item_fn) => {
            let span = item_fn.fn_signature.span;
            let facts = fn_facts(module_facts, span);
            assert(module_facts.fns.dom().contains(span));
            let location = item_location(enclosing_impl_ty(scope), item_fn.fn_signature.name.name@);
            let finding = PropagationVisitor::visited(
                module_facts,
                files,
                module,
                scope,
                node,
            ).findings[k];
            assert(finding.message == finding_message(location, facts.written));
        },
        _ => {},
    }
}

/// The whole second pass keeps every function's written slots in ascending
/// order, and each of its findings is of high severity, in the file of the
/// module, and names one or more written slots in ascending order.
pub proof fn lemma_second_pass<'a>(
    module_facts: ModuleFacts,
    files: Seq<SourceFile>,
    module: &'a Module,
    scope: Scope<'a>,
    nodes: Seq<Node<'a>>,
    from: nat,
)
    requires
        all_sorted(module_facts),
    ensures
        all_sorted(
            driven::<PropagationVisitor>(module_facts, files, module, scope, nodes, from).state,
        ),
        forall|k: int|
            0 <= k < driven::<PropagationVisitor>(
                module_facts,
                files,
                module,
                scope,
                nodes,
                from,
            ).findings.len() ==> is_unprotected_finding(
                #[trigger] driven::<PropagationVisitor>(
                    module_facts,
                    files,
                    module,
                    scope,
                    nodes,
                    from,
                ).findings[k],
                module.path@,
            ),
{
    let kept = |state: ModuleFacts| all_sorted(state);
    let good = |finding: FindingView| is_unprotected_finding(finding, module.path@);
    assert forall|before: ModuleFacts, at: Scope<'a>, k: int|
        from <= k < nodes.len() && kept(before) implies kept(
        #[trigger] PropagationVisitor::visited(before, files, module, at, nodes[k]).state,
    ) by {
        lemma_second_pass_step_keeps_sorted(before, files, module, at, nodes[k]);
    }
    assert forall|before: ModuleFacts, at: Scope<'a>, k: int, j: int|
        from <= k < nodes.len() && kept(before) && 0 <= j < PropagationVisitor::visited(
            before,
            files,
            module,
            at,
            nodes[k],
        ).findings.len() implies good(
        #[trigger] PropagationVisitor::visited(before, files, module, at, nodes[k]).findings[j],
    ) by {
        lemma_second_pass_step_findings(before, files, module, at, nodes[k], j);
    }
    lemma_driven_keeps::<PropagationVisitor>(kept, module_facts, files, module, scope, nodes, from);
    lemma_driven_findings::<PropagationVisitor>(
        kept,
        good,
        module_facts,
        files,
        module,
        scope,
        nodes,
        from,
    );
}

/// In every module, every function's written slots are in ascending order.
pub open spec fn all_modules_sorted(modules: ModulesFacts) -> bool {
    forall|i: int| 0 <= i < modules.len() ==> all_sorted((#[trigger] modules[i]).1)
}

/// What is known of a module is in order if all that is known is, and
/// recording facts that are in order keeps all in order.
pub proof fn lemma_with_module_keeps_sorted(modules: ModulesFacts, path: Seq<char>, facts: ModuleFacts)
    requires
        all_modules_sorted(modules),
    ensures
        all_sorted(module_facts(modules, path)),
        all_sorted(facts) ==> all_modules_sorted(with_module(modules, path, facts)),
{
    lemma_module_index(modules, path, 0);
    let i = module_index(modules, path, 0);
    if i < modules.len() {
        assert(all_sorted(modules[i as int].1));
    }
    if all_sorted(facts) {
        let after = with_module(modules, path, facts);
        assert forall|k: int| 0 <= k < after.len() implies all_sorted((#[trigger] after[k]).1) by {
            if k != i {
                assert(after[k] == modules[k]);
            }
        }
    }
}

/// A step of the first pass keeps every function's written slots in ascending
/// order.
pub proof fn lemma_first_pass_step_keeps_sorted<'a>(
    modules: ModulesFacts,
    files: Seq<SourceFile>,
    module: &'a Module,
    scope: Scope<'a>,
    node: Node<'a>,
)
    requires
        all_modules_sorted(modules),
    ensures
        all_modules_sorted(
            UnprotectedStorageVariablesVisitor::visited(modules, files, module, scope, node).state,
        ),
{
    let path = module.path@;
    let facts = module_facts(modules, path);
    lemma_with_module_keeps_sorted(modules, path, facts);
    match node {
        Node::Use(item_use) => {
            lemma_with_module_keeps_sorted(modules, path, after_use(facts, item_use.tree));
        },
        Node::Statement(statement) => {
            if let Some(item_fn) = scope.item_fn {
                let after = after_statement(facts, item_fn.fn_signature.span, *statement);
                lemma_statement_records_write(facts, item_fn.fn_signature.span, *statement);
                lemma_with_module_keeps_sorted(modules, path, after);
            }
        },
        Node::StatementLet(statement_let) => {
            if let Some(item_fn) = scope.item_fn {
                if scope.blocks.len() > 0 {
                    let after = after_let(
                        facts,
                        item_fn.fn_signature.span,
                        scope.blocks,
                        *statement_let,
                    );
                    lemma_let_keeps_facts(
                        facts,
                        item_fn.fn_signature.span,
                        scope.blocks,
                        *statement_let,
                    );
                    lemma_with_module_keeps_sorted(modules, path, after);
                }
            }
        },
        Node::Expr(expr) => {
            let after = after_expr(facts, enclosing_fn(scope), scope.blocks, *expr);
            lemma_expr_keeps_facts(facts, enclosing_fn(scope), scope.blocks, *expr);
            lemma_with_module_keeps_sorted(modules, path, after);
        },
        _ => {},
    }
}

/// Every finding of the analysis of a module is of high severity, in the file
/// of the module, and names one or more written slots in ascending order,
/// each once; and the analysis leaves every function's written slots in
/// ascending order.  This holds for a visitor that is fresh, and for one that
/// has analysed other modules before.
pub proof fn lemma_analysis_findings(modules: ModulesFacts, files: Seq<SourceFile>, module: &Module)
    requires
        all_modules_sorted(modules),
    ensures
        all_modules_sorted(
            analysis::<UnprotectedStorageVariablesVisitor>(modules, files, module).state,
        ),
        forall|k: int|
            0 <= k < analysis::<UnprotectedStorageVariablesVisitor>(
                modules,
                files,
                module,
            ).findings.len() ==> is_unprotected_finding(
                #[trigger] analysis::<UnprotectedStorageVariablesVisitor>(
                    modules,
                    files,
                    module,
                ).findings[k],
                module.path@,
            ),
{
    let kept = |state: ModulesFacts| all_modules_sorted(state);
    let nodes = module_nodes(module);
    assert forall|before: ModulesFacts, at: Scope, k: int|
        0 <= k < nodes.len() && kept(before) implies kept(
        #[trigger] UnprotectedStorageVariablesVisitor::visited(
            before,
            files,
            module,
            at,
            nodes[k],
        ).state,
    ) by {
        lemma_first_pass_step_keeps_sorted(before, files, module, at, nodes[k]);
    }
    lemma_driven_keeps::<UnprotectedStorageVariablesVisitor>(
        kept,
        modules,
        files,
        module,
        top_scope(),
        module_nodes(module),
        0,
    );
    lemma_first_pass_finds_nothing(modules, files, module, top_scope(), module_nodes(module), 0);
    let first = driven::<UnprotectedStorageVariablesVisitor>(
        modules,
        files,
        module,
        top_scope(),
        module_nodes(module),
        0,
    );
    if first.error is None {
        let known = module_facts(first.state, module.path@);
        lemma_with_module_keeps_sorted(first.state, module.path@, known);
        lemma_second_pass(known, files, module, top_scope(), module_nodes(module), 0);
        let pass = driven::<PropagationVisitor>(
            known,
            files,
            module,
            top_scope(),
            module_nodes(module),
            0,
        );
        lemma_with_module_keeps_sorted(first.state, module.path@, pass.state);
        let whole = analysis::<UnprotectedStorageVariablesVisitor>(modules, files, module);
        assert(whole.findings =~= pass.findings);
    } else {
        let whole = analysis::<UnprotectedStorageVariablesVisitor>(modules, files, module);
        assert(whole.findings =~= first.findings);
    }
}

/// No function of the module is known to write storage.
pub open spec fn nothing_written(module: ModuleFacts) -> bool {
    forall|span: Span| #[trigger]
        module.fns.dom().contains(span) ==> module.fns[span].written.len() == 0
}

/// No function of any module is known to write storage.
pub open spec fn nothing_written_anywhere(modules: ModulesFacts) -> bool {
    forall|i: int| 0 <= i < modules.len() ==> nothing_written((#[trigger] modules[i]).1)
}

/// None of the steps is a statement that writes storage.
pub open spec fn no_storage_writes(nodes: Seq<Node>) -> bool {
    forall|k: int|
        0 <= k < nodes.len() ==> ((#[trigger] nodes[k]) matches Node::Statement(statement)
            ==> storage_write_idents(*statement) is None)
}

proof fn lemma_with_module_keeps_nothing_written(
    modules: ModulesFacts,
    path: Seq<char>,
    facts: ModuleFacts,
)
    requires
        nothing_written_anywhere(modules),
    ensures
        nothing_written(module_facts(modules, path)),
        nothing_written(facts) ==> nothing_written_anywhere(with_module(modules, path, facts)),
{
    lemma_module_index(modules, path, 0);
    let i = module_index(modules, path, 0);
    if i < modules.len() {
        assert(nothing_written(modules[i as int].1));
    }
    if nothing_written(facts) {
        let after = with_module(modules, path, facts);
        assert forall|k: int| 0 <= k < after.len() implies nothing_written(
            (#[trigger] after[k]).1,
        ) by {
            if k != i {
                assert(after[k] == modules[k]);
            }
        }
    }
}

proof fn lemma_first_pass_step_writes_nothing<'a>(
    modules: ModulesFacts,
    files: Seq<SourceFile>,
    module: &'a Module,
    scope: Scope<'a>,
    node: Node<'a>,
)
    requires
        nothing_written_anywhere(modules),
        node matches Node::Statement(statement) ==> storage_write_idents(*statement) is None,
    ensures
        nothing_written_anywhere(
            UnprotectedStorageVariablesVisitor::visited(modules, files, module, scope, node).state,
        ),
{
    let path = module.path@;
    let facts = module_facts(modules, path);
    lemma_with_module_keeps_nothing_written(modules, path, facts);
    let after = match node {
        Node::Use(item_use) => after_use(facts, item_use.tree),
        Node::Statement(statement) => match scope.item_fn {
            Some(item_fn) => after_statement(facts, item_fn.fn_signature.span, *statement),
            None => facts,
        },
        Node::StatementLet(statement_let) => match scope.item_fn {
            Some(item_fn) => if scope.blocks.len() > 0 {
                after_let(facts, item_fn.fn_signature.span, scope.blocks, *statement_let)
            } else {
                facts
            },
            None => facts,
        },
        Node::Expr(expr) => after_expr(facts, enclosing_fn(scope), scope.blocks, *expr),
        _ => facts,
    };
    assert forall|span: Span| #[trigger] after.fns.dom().contains(span) implies after.fns[span].written.len()
        == 0 by {
        if facts.fns.dom().contains(span) {
            assert(facts.fns[span].written.len() == 0);
        }
    }
    lemma_with_module_keeps_nothing_written(modules, path, after);
}

proof fn lemma_second_pass_step_writes_nothing<'a>(
    module_facts: ModuleFacts,
    files: Seq<SourceFile>,
    module: &'a Module,
    scope: Scope<'a>,
    node: Node<'a>,
)
    requires
        nothing_written(module_facts),
    ensures
        nothing_written(PropagationVisitor::visited(module_facts, files, module, scope, node).state),
        PropagationVisitor::visited(module_facts, files, module, scope, node).error is None,
        PropagationVisitor::visited(module_facts, files, module, scope, node).findings.len() == 0,
{
    let after = PropagationVisitor::visited(module_facts, files, module, scope, node).state;
    assert forall|span: Span| #[trigger] after.fns.dom().contains(span) implies after.fns[span].written.len()
        == 0 by {
        if module_facts.fns.dom().contains(span) {
            assert(module_facts.fns[span].written.len() == 0);
        }
        match node {
            Node::Expr(expr) => {
                match expr.kind {
                    ExprKind::FuncApp { func, .. } => {
                        let callee = resolve_callee(module, scope.item_impl, func.text@);
                        if let Some(callee) = callee {
                            let known = touched(module_facts, callee);
                            if module_facts.fns.dom().contains(callee) {
                                assert(module_facts.fns[callee].written.len() == 0);
                            }
                            if let Some(caller) = enclosing_fn(scope) {
                                if module_facts.fns.dom().contains(caller) {
                                    assert(module_facts.fns[caller].written.len() == 0);
                                }
                                assert(fn_facts(known, callee).written.len() == 0);
                                assert(fn_facts(known, caller).written.len() == 0);
                            }
                        }
                    },
                    _ => {},
                }
            },
            _ => {},
        }
    }
    match node {
        Node::LeaveFn(item_fn) => {
            let span = item_fn.fn_signature.span;
            if module_facts.fns.dom().contains(span) {
                assert(module_facts.fns[span].written.len() == 0);
            }
        },
        _ => {},
    }
}

/// A module in which no statement writes storage yields no finding and no
/// error, whatever its functions check or call, provided that nothing was
/// known to write storage before.
pub proof fn lemma_module_without_writes_has_no_findings(
    modules: ModulesFacts,
    files: Seq<SourceFile>,
    module: &Module,
)
    requires
        nothing_written_anywhere(modules),
        no_storage_writes(module_nodes(module)),
    ensures
        analysis::<UnprotectedStorageVariablesVisitor>(modules, files, module).findings.len() == 0,
        analysis::<UnprotectedStorageVariablesVisitor>(modules, files, module).error is None,
        nothing_written_anywhere(
            analysis::<UnprotectedStorageVariablesVisitor>(modules, files, module).state,
        ),
{
    let nodes = module_nodes(module);
    let kept = |state: ModulesFacts| nothing_written_anywhere(state);
    let none = |finding: FindingView| false;
    assert forall|before: ModulesFacts, at: Scope, k: int|
        0 <= k < nodes.len() && kept(before) implies kept(
        #[trigger] UnprotectedStorageVariablesVisitor::visited(
            before,
            files,
            module,
            at,
            nodes[k],
        ).state,
    ) && UnprotectedStorageVariablesVisitor::visited(before, files, module, at, nodes[k]).error
        is None by {
        lemma_first_pass_step_writes_nothing(before, files, module, at, nodes[k]);
    }
    lemma_driven_keeps::<UnprotectedStorageVariablesVisitor>(
        kept,
        modules,
        files,
        module,
        top_scope(),
        nodes,
        0,
    );
    lemma_driven_succeeds::<UnprotectedStorageVariablesVisitor>(
        kept,
        modules,
        files,
        module,
        top_scope(),
        nodes,
        0,
    );
    lemma_driven_findings::<UnprotectedStorageVariablesVisitor>(
        kept,
        none,
        modules,
        files,
        module,
        top_scope(),
        nodes,
        0,
    );
    let first = driven::<UnprotectedStorageVariablesVisitor>(
        modules,
        files,
        module,
        top_scope(),
        nodes,
        0,
    );
    assert(first.findings.len() == 0) by {
        if first.findings.len() > 0 {
            assert(none(first.findings[0]));
        }
    }
    let known = module_facts(first.state, module.path@);
    lemma_with_module_keeps_nothing_written(first.state, module.path@, known);
    let quiet = |state: ModuleFacts| nothing_written(state);
    assert forall|before: ModuleFacts, at: Scope, k: int|
        0 <= k < nodes.len() && quiet(before) implies quiet(
        #[trigger] PropagationVisitor::visited(before, files, module, at, nodes[k]).state,
    ) && PropagationVisitor::visited(before, files, module, at, nodes[k]).error is None by {
        lemma_second_pass_step_writes_nothing(before, files, module, at, nodes[k]);
    }
    assert forall|before: ModuleFacts, at: Scope, k: int, j: int|
        0 <= k < nodes.len() && quiet(before) && 0 <= j < PropagationVisitor::visited(
            before,
            files,
            module,
            at,
            nodes[k],
        ).findings.len() implies none(
        #[trigger] PropagationVisitor::visited(before, files, module, at, nodes[k]).findings[j],
    ) by {
        lemma_second_pass_step_writes_nothing(before, files, module, at, nodes[k]);
    }
    lemma_driven_keeps::<PropagationVisitor>(quiet, known, files, module, top_scope(), nodes, 0);
    lemma_driven_succeeds::<PropagationVisitor>(quiet, known, files, module, top_scope(), nodes, 0);
    lemma_driven_findings::<PropagationVisitor>(
        quiet,
        none,
        known,
        files,
        module,
        top_scope(),
        nodes,
        0,
    );
    let pass = driven::<PropagationVisitor>(known, files, module, top_scope(), nodes, 0);
    assert(pass.findings.len() == 0) by {
        if pass.findings.len() > 0 {
            assert(none(pass.findings[0]));
        }
    }
    lemma_with_module_keeps_nothing_written(first.state, module.path@, pass.state);
    let whole = analysis::<UnprotectedStorageVariablesVisitor>(modules, files, module);
    assert(whole.findings =~= pass.findings);
}

/// A step of the first pass loses nothing that was known of the module.
pub proof fn lemma_first_pass_step_grows<'a>(
    modules: ModulesFacts,
    files: Seq<SourceFile>,
    module: &'a Module,
    scope: Scope<'a>,
    node: Node<'a>,
)
    requires
        all_modules_sorted(modules),
    ensures
        module_grown(
            module_facts(modules, module.path@),
            module_facts(
                UnprotectedStorageVariablesVisitor::visited(
                    modules,
                    files,
                    module,
                    scope,
                    node,
                ).state,
                module.path@,
            ),
        ),
{
    let path = module.path@;
    let facts = module_facts(modules, path);
    lemma_with_module_keeps_sorted(modules, path, facts);
    let after = match node {
        Node::Use(item_use) => after_use(facts, item_use.tree),
        Node::Statement(statement) => match scope.item_fn {
            Some(item_fn) => after_statement(facts, item_fn.fn_signature.span, *statement),
            None => facts,
        },
        Node::StatementLet(statement_let) => match scope.item_fn {
            Some(item_fn) => if scope.blocks.len() > 0 {
                after_let(facts, item_fn.fn_signature.span, scope.blocks, *statement_let)
            } else {
                facts
            },
            None => facts,
        },
        Node::Expr(expr) => after_expr(facts, enclosing_fn(scope), scope.blocks, *expr),
        _ => facts,
    };
    lemma_with_module(modules, path, after, after);
    match node {
        Node::Statement(statement) => {
            if let Some(item_fn) = scope.item_fn {
                lemma_statement_records_write(facts, item_fn.fn_signature.span, *statement);
            }
        },
        Node::StatementLet(statement_let) => {
            if let Some(item_fn) = scope.item_fn {
                if scope.blocks.len() > 0 {
                    lemma_let_keeps_facts(
                        facts,
                        item_fn.fn_signature.span,
                        scope.blocks,
                        *statement_let,
                    );
                }
            }
        },
        Node::Expr(expr) => {
            lemma_expr_keeps_facts(facts, enclosing_fn(scope), scope.blocks, *expr);
        },
        _ => {},
    }
    assert(module_grown(facts, after));
}

/// A step of the second pass loses nothing that was known of the module.
pub proof fn lemma_second_pass_step_grows<'a>(
    module_facts: ModuleFacts,
    files: Seq<SourceFile>,
    module: &'a Module,
    scope: Scope<'a>,
    node: Node<'a>,
)
    requires
        all_sorted(module_facts),
    ensures
        module_grown(
            module_facts,
            PropagationVisitor::visited(module_facts, files, module, scope, node).state,
        ),
{
    match node {
        Node::Expr(expr) => {
            match expr.kind {
                ExprKind::FuncApp { func, .. } => {
                    let callee = resolve_callee(module, scope.item_impl, func.text@);
                    match (enclosing_fn(scope), callee) {
                        (Some(caller), Some(callee)) => {
                            lemma_call_hands_facts_over(module_facts, caller, callee);
                        },
                        (None, Some(callee)) => {
                            lemma_touched_keeps_facts(module_facts, callee);
                        },
                        _ => {},
                    }
                },
                _ => {},
            }
        },
        Node::LeaveFn(item_fn) => {
            lemma_touched_keeps_facts(module_facts, item_fn.fn_signature.span);
        },
        _ => {},
    }
}

/// The second pass as a whole loses nothing: a function that was checked
/// before it is checked after it, and writes at least what it wrote.
pub proof fn lemma_second_pass_grows<'a>(
    module_facts: ModuleFacts,
    files: Seq<SourceFile>,
    module: &'a Module,
    scope: Scope<'a>,
    nodes: Seq<Node<'a>>,
    from: nat,
)
    requires
        all_sorted(module_facts),
    ensures
        module_grown(
            module_facts,
            driven::<PropagationVisitor>(module_facts, files, module, scope, nodes, from).state,
        ),
{
    let kept = |state: ModuleFacts| all_sorted(state) && module_grown(module_facts, state);
    assert forall|before: ModuleFacts, at: Scope<'a>, k: int|
        from <= k < nodes.len() && kept(before) implies kept(
        #[trigger] PropagationVisitor::visited(before, files, module, at, nodes[k]).state,
    ) by {
        let after = PropagationVisitor::visited(before, files, module, at, nodes[k]).state;
        lemma_second_pass_step_keeps_sorted(before, files, module, at, nodes[k]);
        lemma_second_pass_step_grows(before, files, module, at, nodes[k]);
        lemma_module_grown_transitive(module_facts, before, after);
    }
    assert(kept(module_facts));
    lemma_driven_keeps::<PropagationVisitor>(kept, module_facts, files, module, scope, nodes, from);
}

/// The first pass as a whole loses nothing that was known of the module it
/// walks through.
pub proof fn lemma_first_pass_grows<'a>(
    modules: ModulesFacts,
    files: Seq<SourceFile>,
    module: &'a Module,
    scope: Scope<'a>,
    nodes: Seq<Node<'a>>,
    from: nat,
)
    requires
        all_modules_sorted(modules),
    ensures
        module_grown(
            module_facts(modules, module.path@),
            module_facts(
                driven::<UnprotectedStorageVariablesVisitor>(
                    modules,
                    files,
                    module,
                    scope,
                    nodes,
                    from,
                ).state,
                module.path@,
            ),
        ),
{
    let path = module.path@;
    let known = module_facts(modules, path);
    let kept = |state: ModulesFacts|
        all_modules_sorted(state) && module_grown(known, module_facts(state, path));
    assert forall|before: ModulesFacts, at: Scope<'a>, k: int|
        from <= k < nodes.len() && kept(before) implies kept(
        #[trigger] UnprotectedStorageVariablesVisitor::visited(
            before,
            files,
            module,
            at,
            nodes[k],
        ).state,
    ) by {
        let after = UnprotectedStorageVariablesVisitor::visited(
            before,
            files,
            module,
            at,
            nodes[k],
        ).state;
        lemma_first_pass_step_keeps_sorted(before, files, module, at, nodes[k]);
        lemma_first_pass_step_grows(before, files, module, at, nodes[k]);
        lemma_module_grown_transitive(
            known,
            module_facts(before, path),
            module_facts(after, path),
        );
    }
    assert(kept(modules));
    lemma_driven_keeps::<UnprotectedStorageVariablesVisitor>(
        kept,
        modules,
        files,
        module,
        scope,
        nodes,
        from,
    );
}

/// The scope in which the `at`-th step of the walk through `module` is shown.
pub open spec fn scope_of_step<'a>(module: &'a Module, at: nat) -> Scope<'a> {
    scope_at(
        scope_before(top_scope(), module_nodes(module), 0, at),
        module_nodes(module)[at as int],
    )
}

/// Every storage write of a module is on record once the first pass is done:
/// where the `at`-th step of the walk is a statement that writes a storage
/// slot, the statement stands in a function, the first pass does not fail,
/// and after it the slot is among those the function is known to write.
pub proof fn lemma_storage_write_is_recorded(
    modules: ModulesFacts,
    files: Seq<SourceFile>,
    module: &Module,
    at: nat,
    statement: &Statement,
    slot: Ident,
    value: Ident,
)
    requires
        all_modules_sorted(modules),
        at < module_nodes(module).len(),
        module_nodes(module)[at as int] == Node::Statement(statement),
        storage_write_idents(*statement) == Some((slot, value)),
    ensures
        enclosing_fn(scope_of_step(module, at)) is Some,
        driven::<UnprotectedStorageVariablesVisitor>(
            modules,
            files,
            module,
            top_scope(),
            module_nodes(module),
            0,
        ).error is None,
        all_modules_sorted(
            driven::<UnprotectedStorageVariablesVisitor>(
                modules,
                files,
                module,
                top_scope(),
                module_nodes(module),
                0,
            ).state,
        ),
        fn_facts(
            module_facts(
                driven::<UnprotectedStorageVariablesVisitor>(
                    modules,
                    files,
                    module,
                    top_scope(),
                    module_nodes(module),
                    0,
                ).state,
                module.path@,
            ),
            enclosing_fn(scope_of_step(module, at))->0,
        ).written.contains(slot.name@),
{
    let nodes = module_nodes(module);
    let path = module.path@;
    let target = scope_before(top_scope(), nodes, 0, at);
    let shown = scope_of_step(module, at);
    let name = slot.name@;
    lemma_module_well_scoped(module);
    lemma_step_fits(top_scope(), nodes, 0, at);
    assert(fits(shown, nodes[at as int]));
    let span = enclosing_fn(shown)->0;
    let kept = |k: nat, scope: Scope, state: ModulesFacts|
        {
            &&& all_modules_sorted(state)
            &&& k <= at ==> scope_before(scope, nodes, k, at) == target
            &&& k > at ==> fn_facts(module_facts(state, path), span).written.contains(name)
        };
    assert forall|k: nat, scope: Scope, before: ModulesFacts|
        #![trigger kept(k, scope, before)]
        0 <= k < nodes.len() && kept(k, scope, before) implies UnprotectedStorageVariablesVisitor::visited(
        before,
        files,
        module,
        scope_at(scope, nodes[k as int]),
        nodes[k as int],
    ).error is None && kept(
        k + 1,
        scope_after(scope, nodes[k as int]),
        UnprotectedStorageVariablesVisitor::visited(
            before,
            files,
            module,
            scope_at(scope, nodes[k as int]),
            nodes[k as int],
        ).state,
    ) by {
        let shown_k = scope_at(scope, nodes[k as int]);
        let after = UnprotectedStorageVariablesVisitor::visited(
            before,
            files,
            module,
            shown_k,
            nodes[k as int],
        ).state;
        lemma_first_pass_step_keeps_sorted(before, files, module, shown_k, nodes[k as int]);
        lemma_first_pass_step_grows(before, files, module, shown_k, nodes[k as int]);
        let known = module_facts(before, path);
        lemma_with_module_keeps_sorted(before, path, known);
        if k == at {
            assert(scope == target);
            assert(shown_k == shown);
            let recorded = after_statement(known, span, *statement);
            lemma_with_module(before, path, recorded, recorded);
            lemma_statement_records_write(known, span, *statement);
        } else if k > at {
            assert(grown(fn_facts(known, span), fn_facts(module_facts(after, path), span)));
        }
    }
    assert(kept(0, top_scope(), modules));
    lemma_driven_keeps_along::<UnprotectedStorageVariablesVisitor>(
        kept,
        modules,
        files,
        module,
        top_scope(),
        nodes,
        0,
    );
}

/// A slot a function is known to write before the second pass, it is known to
/// write throughout: the second pass leaves it on record, whatever happens.
pub proof fn lemma_recorded_write_stays<'a>(
    module_facts: ModuleFacts,
    files: Seq<SourceFile>,
    module: &'a Module,
    scope: Scope<'a>,
    nodes: Seq<Node<'a>>,
    from: nat,
    span: Span,
    name: Seq<char>,
)
    requires
        all_sorted(module_facts),
        fn_facts(module_facts, span).written.contains(name),
    ensures
        fn_facts(
            driven::<PropagationVisitor>(module_facts, files, module, scope, nodes, from).state,
            span,
        ).written.contains(name),
{
    lemma_second_pass_grows(module_facts, files, module, scope, nodes, from);
    let after = driven::<PropagationVisitor>(module_facts, files, module, scope, nodes, from).state;
    assert(grown(fn_facts(module_facts, span), fn_facts(after, span)));
}

/// The first pass makes no findings.
pub proof fn lemma_first_pass_finds_nothing<'a>(
    modules: ModulesFacts,
    files: Seq<SourceFile>,
    module: &'a Module,
    scope: Scope<'a>,
    nodes: Seq<Node<'a>>,
    from: nat,
)
    ensures
        driven::<UnprotectedStorageVariablesVisitor>(
            modules,
            files,
            module,
            scope,
            nodes,
            from,
        ).findings.len() == 0,
        driven::<UnprotectedStorageVariablesVisitor>(
            modules,
            files,
            module,
            scope,
            nodes,
            from,
        ).error is None,
    decreases nodes.len() - from,
{
    if from < nodes.len() {
        let node = nodes[from as int];
        let step = UnprotectedStorageVariablesVisitor::visited(
            modules,
            files,
            module,
            scope_at(scope, node),
            node,
        );
        lemma_first_pass_finds_nothing(
            step.state,
            files,
            module,
            scope_after(scope, node),
            nodes,
            from + 1,
        );
    }
}

/// A function that writes storage and is never found to check the caller is
/// reported.  Where a statement of the module writes a storage slot, and the
/// function it stands in is still unchecked when the analysis of the module
/// ends without an error, the report holds a finding of high severity at the
/// line of that function's signature, made when the function was left, which
/// names the function and lists what it writes: the written slot among them,
/// in ascending order, each once.
pub proof fn lemma_unchecked_writer_is_reported(
    modules: ModulesFacts,
    files: Seq<SourceFile>,
    module: &Module,
    written_at: nat,
    statement: &Statement,
    slot: Ident,
    value: Ident,
    left_at: nat,
    item_fn: &ItemFn,
)
    requires
        all_modules_sorted(modules),
        written_at < module_nodes(module).len(),
        module_nodes(module)[written_at as int] == Node::Statement(statement),
        storage_write_idents(*statement) == Some((slot, value)),
        left_at < module_nodes(module).len(),
        module_nodes(module)[left_at as int] == Node::LeaveFn(item_fn),
        enclosing_fn(scope_of_step(module, written_at)) == Some(item_fn.fn_signature.span),
        analysis::<UnprotectedStorageVariablesVisitor>(modules, files, module).error is None,
        !fn_facts(
            module_facts(
                analysis::<UnprotectedStorageVariablesVisitor>(modules, files, module).state,
                module.path@,
            ),
            item_fn.fn_signature.span,
        ).checked,
    ensures
        exists|j: int, written: Seq<Seq<char>>|
            {
                &&& 0 <= j < analysis::<UnprotectedStorageVariablesVisitor>(
                    modules,
                    files,
                    module,
                ).findings.len()
                &&& written.contains(slot.name@)
                &&& sorted(written)
                &&& resolve_line(files, module.path@, item_fn.fn_signature.span) is Ok
                &&& #[trigger] analysis::<UnprotectedStorageVariablesVisitor>(
                    modules,
                    files,
                    module,
                ).findings[j] == (FindingView {
                    path: module.path@,
                    line: resolve_line(files, module.path@, item_fn.fn_signature.span)->Ok_0,
                    severity: Severity::High,
                    message: #[trigger] finding_message(
                        item_location(
                            enclosing_impl_ty(scope_of_step(module, left_at)),
                            item_fn.fn_signature.name.name@,
                        ),
                        written,
                    ),
                })
            },
{
    let nodes = module_nodes(module);
    let path = module.path@;
    let span = item_fn.fn_signature.span;
    let whole = analysis::<UnprotectedStorageVariablesVisitor>(modules, files, module);
    let first = driven::<UnprotectedStorageVariablesVisitor>(
        modules,
        files,
        module,
        top_scope(),
        nodes,
        0,
    );
    lemma_storage_write_is_recorded(modules, files, module, written_at, statement, slot, value);
    lemma_first_pass_finds_nothing(modules, files, module, top_scope(), nodes, 0);
    let known = module_facts(first.state, path);
    lemma_with_module_keeps_sorted(first.state, path, known);
    let pass = driven::<PropagationVisitor>(known, files, module, top_scope(), nodes, 0);
    assert(whole.findings =~= pass.findings);
    assert(whole.error == pass.error);
    lemma_with_module(first.state, path, pass.state, pass.state);
    assert(module_facts(whole.state, path) == pass.state);

    let reached = state_before::<PropagationVisitor>(
        known,
        files,
        module,
        top_scope(),
        nodes,
        0,
        left_at,
    );
    let around = scope_before(top_scope(), nodes, 0, left_at);
    let kept = |state: ModuleFacts| all_sorted(state) && module_grown(known, state);
    assert forall|before: ModuleFacts, at: Scope, k: int|
        0 <= k < nodes.len() && kept(before) implies kept(
        #[trigger] PropagationVisitor::visited(before, files, module, at, nodes[k]).state,
    ) by {
        let after = PropagationVisitor::visited(before, files, module, at, nodes[k]).state;
        lemma_second_pass_step_keeps_sorted(before, files, module, at, nodes[k]);
        lemma_second_pass_step_grows(before, files, module, at, nodes[k]);
        lemma_module_grown_transitive(known, before, after);
    }
    assert(kept(known));
    lemma_kept_before::<PropagationVisitor>(
        kept,
        known,
        files,
        module,
        top_scope(),
        nodes,
        0,
        left_at,
    );
    assert(grown(fn_facts(known, span), fn_facts(reached, span)));
    let written = fn_facts(reached, span).written;
    assert(written.contains(slot.name@));
    assert(reached.fns.dom().contains(span));
    assert(sorted(written));

    lemma_driven_split::<PropagationVisitor>(known, files, module, top_scope(), nodes, 0, left_at);
    lemma_second_pass_grows(reached, files, module, around, nodes, left_at);
    assert(grown(fn_facts(reached, span), fn_facts(pass.state, span)));
    assert(!fn_facts(reached, span).checked);
    assert(is_unprotected(fn_facts(reached, span)));

    lemma_driven_contains_step::<PropagationVisitor>(
        known,
        files,
        module,
        top_scope(),
        nodes,
        0,
        left_at,
    );
    let shown = scope_of_step(module, left_at);
    let step = PropagationVisitor::visited(reached, files, module, shown, nodes[left_at as int]);
    assert(step == fn_left(reached, files, module, shown, item_fn));
    assert(step.error is None);
    assert(step.findings.len() == 1);
    assert(pass.findings.contains(step.findings[0]));
    let j = choose|j: int| 0 <= j < pass.findings.len() && pass.findings[j] == step.findings[0];
    assert(whole.findings[j] == step.findings[0]);
    assert(step.findings[0].message == finding_message(
        item_location(enclosing_impl_ty(shown), item_fn.fn_signature.name.name@),
        written,
    ));
}

/// A function that is known to write nothing when the analysis of its module
/// ends without an error was left without a finding, whether it checks the
/// caller or not.
pub proof fn lemma_function_without_writes_is_left_quietly(
    modules: ModulesFacts,
    files: Seq<SourceFile>,
    module: &Module,
    left_at: nat,
    item_fn: &ItemFn,
)
    requires
        all_modules_sorted(modules),
        left_at < module_nodes(module).len(),
        module_nodes(module)[left_at as int] == Node::LeaveFn(item_fn),
        analysis::<UnprotectedStorageVariablesVisitor>(modules, files, module).error is None,
        fn_facts(
            module_facts(
                analysis::<UnprotectedStorageVariablesVisitor>(modules, files, module).state,
                module.path@,
            ),
            item_fn.fn_signature.span,
        ).written.len() == 0,
    ensures
        PropagationVisitor::visited(
            state_before::<PropagationVisitor>(
                module_facts(
                    driven::<UnprotectedStorageVariablesVisitor>(
                        modules,
                        files,
                        module,
                        top_scope(),
                        module_nodes(module),
                        0,
                    ).state,
                    module.path@,
                ),
                files,
                module,
                top_scope(),
                module_nodes(module),
                0,
                left_at,
            ),
            files,
            module,
            scope_of_step(module, left_at),
            module_nodes(module)[left_at as int],
        ).findings.len() == 0,
{
    let nodes = module_nodes(module);
    let path = module.path@;
    let span = item_fn.fn_signature.span;
    let whole = analysis::<UnprotectedStorageVariablesVisitor>(modules, files, module);
    let first = driven::<UnprotectedStorageVariablesVisitor>(
        modules,
        files,
        module,
        top_scope(),
        nodes,
        0,
    );
    lemma_first_pass_finds_nothing(modules, files, module, top_scope(), nodes, 0);
    let sorted_kept = |state: ModulesFacts| all_modules_sorted(state);
    assert forall|before: ModulesFacts, at: Scope, k: int|
        0 <= k < nodes.len() && sorted_kept(before) implies sorted_kept(
        #[trigger] UnprotectedStorageVariablesVisitor::visited(
            before,
            files,
            module,
            at,
            nodes[k],
        ).state,
    ) by {
        lemma_first_pass_step_keeps_sorted(before, files, module, at, nodes[k]);
    }
    lemma_driven_keeps::<UnprotectedStorageVariablesVisitor>(
        sorted_kept,
        modules,
        files,
        module,
        top_scope(),
        nodes,
        0,
    );
    let known = module_facts(first.state, path);
    lemma_with_module_keeps_sorted(first.state, path, known);
    let pass = driven::<PropagationVisitor>(known, files, module, top_scope(), nodes, 0);
    assert(whole.error == pass.error);
    lemma_with_module(first.state, path, pass.state, pass.state);
    let reached = state_before::<PropagationVisitor>(
        known,
        files,
        module,
        top_scope(),
        nodes,
        0,
        left_at,
    );
    let around = scope_before(top_scope(), nodes, 0, left_at);
    let kept = |state: ModuleFacts| all_sorted(state);
    assert forall|before: ModuleFacts, at: Scope, k: int|
        0 <= k < nodes.len() && kept(before) implies kept(
        #[trigger] PropagationVisitor::visited(before, files, module, at, nodes[k]).state,
    ) by {
        lemma_second_pass_step_keeps_sorted(before, files, module, at, nodes[k]);
    }
    lemma_kept_before::<PropagationVisitor>(
        kept,
        known,
        files,
        module,
        top_scope(),
        nodes,
        0,
        left_at,
    );
    lemma_driven_split::<PropagationVisitor>(known, files, module, top_scope(), nodes, 0, left_at);
    lemma_second_pass_grows(reached, files, module, around, nodes, left_at);
    assert(grown(fn_facts(reached, span), fn_facts(pass.state, span)));
    let written = fn_facts(reached, span).written;
    if written.len() > 0 {
        assert(written.contains(written[0]));
        assert(fn_facts(pass.state, span).written.contains(written[0]));
    }
}

} // verus!
