//! Storage written without a check of who is calling.
//!
//! A first pass over a module records, for every function, the storage slots
//! it writes and whether it checks the caller: a `require(..)` or an
//! `if .. { revert }` whose condition holds `msg_sender()` or a local bound to
//! it.  A second pass hands what is known of a called function to the function
//! that calls it.  A function that ends up with writes and without a check is
//! reported.

use vstd::prelude::*;
use crate::ast::{
    BinaryOp, Expr, ExprKind, Ident, IfCondition, Item, ItemFn, ItemImpl, ItemImplItem, ItemKind,
    ItemUse, Module, Pattern, Span, Statement, StatementLet, UseTree,
};
use crate::report::{resolve_line, Error, FindingView, Project, Severity, SourceFile};
use crate::span_map::SpanMap;
use crate::visitor::{
    drive, driven, follows, module_nodes, top_scope, unchanged, walk_module, AstVisitor, Context,
    Node, Outcome, Scope,
};
use crate::text::{insert_all, insert_name, insert_sorted, text_is, texts};
use crate::utils::{
    block_has_revert, fold_pattern_idents, get_item_location, get_require_args, has_revert,
    item_location, pattern_idents, require_args, statement_to_storage_write_idents,
    storage_write_idents, use_tree_name, use_tree_to_name,
};

verus! {

/// What is known of a local variable.
#[derive(Debug)]
pub struct VarState {
    pub name: String,
    /// Whether the variable was bound to the caller's identity.
    pub is_msg_sender: bool,
}

/// What is known of a local variable, with its name as a sequence of
/// characters.
pub struct VarFact {
    pub name: Seq<char>,
    pub is_msg_sender: bool,
}

impl View for VarState {
    type V = VarFact;

    open spec fn view(&self) -> VarFact {
        VarFact { name: self.name@, is_msg_sender: self.is_msg_sender }
    }
}

/// The variables bound in one block, in the order of their bindings.
#[derive(Debug)]
pub struct BlockState {
    pub var_states: Vec<VarState>,
}

impl View for BlockState {
    type V = Seq<VarFact>;

    open spec fn view(&self) -> Seq<VarFact> {
        self.var_states@.map_values(|var: VarState| var@)
    }
}

/// What is known of one function.
#[derive(Debug)]
pub struct FnState {
    pub block_states: SpanMap<BlockState>,
    /// Whether the function checks the caller.  Once set it stays set.
    pub has_msg_sender_check: bool,
    /// The storage slots the function writes, in ascending order, each once.
    pub written_variables: Vec<String>,
}

/// What is known of one function: the bindings of each of its blocks, whether
/// it checks the caller, and the storage slots it writes.
pub struct FnFacts {
    pub blocks: Map<Span, Seq<VarFact>>,
    pub checked: bool,
    pub written: Seq<Seq<char>>,
}

impl View for FnState {
    type V = FnFacts;

    open spec fn view(&self) -> FnFacts {
        FnFacts {
            blocks: self.block_states@,
            checked: self.has_msg_sender_check,
            written: texts(self.written_variables@),
        }
    }
}

/// What is known of one module.
#[derive(Debug)]
pub struct ModuleState {
    /// The names under which `msg_sender` can be called in the module.
    pub msg_sender_names: Vec<String>,
    pub fn_states: SpanMap<FnState>,
}

/// What is known of one module: the names `msg_sender` can be called by, and
/// what is known of each function by the span of its signature.
pub struct ModuleFacts {
    pub names: Seq<Seq<char>>,
    pub fns: Map<Span, FnFacts>,
}

impl View for ModuleState {
    type V = ModuleFacts;

    open spec fn view(&self) -> ModuleFacts {
        ModuleFacts { names: texts(self.msg_sender_names@), fns: self.fn_states@ }
    }
}

/// What is known of a function nothing was recorded for.
pub open spec fn no_facts() -> FnFacts {
    FnFacts { blocks: Map::empty(), checked: false, written: Seq::empty() }
}

/// What is known of the function whose signature is at `span`.
pub open spec fn fn_facts(module: ModuleFacts, span: Span) -> FnFacts {
    if module.fns.dom().contains(span) {
        module.fns[span]
    } else {
        no_facts()
    }
}

/// The module with a record for the function at `span`, an empty one if it had
/// none.
pub open spec fn touched(module: ModuleFacts, span: Span) -> ModuleFacts {
    ModuleFacts { names: module.names, fns: module.fns.insert(span, fn_facts(module, span)) }
}

/// The variables recorded for the block at `span`.
pub open spec fn block_vars(facts: FnFacts, span: Span) -> Seq<VarFact> {
    if facts.blocks.dom().contains(span) {
        facts.blocks[span]
    } else {
        Seq::empty()
    }
}

/// Whether `expr` is a call of `msg_sender`: a call of one of `names` or of
/// `std::auth::msg_sender`, or a method call on such a call, or a match on one.
pub open spec fn is_msg_sender_call(names: Seq<Seq<char>>, expr: Expr) -> bool
    decreases expr,
{
    match expr.kind {
        ExprKind::FuncApp { func, .. } => names.contains(func.text@) || func.text@
            == "std::auth::msg_sender"@,
        ExprKind::MethodCall { target, .. } => is_msg_sender_call(names, *target),
        ExprKind::Match { value, .. } => is_msg_sender_call(names, *value),
        _ => false,
    }
}

/// The operators a condition is searched through: `==`, `!=`, `&&` and `||`.
pub open spec fn joins_conditions(op: BinaryOp) -> bool {
    op == BinaryOp::Equal || op == BinaryOp::NotEqual || op == BinaryOp::LogicalAnd || op
        == BinaryOp::LogicalOr
}

/// Whether a condition holds a call of `msg_sender`, looking through `==`,
/// `!=`, `&&` and `||` and no other operator.
pub open spec fn contains_msg_sender_call(names: Seq<Seq<char>>, expr: Expr) -> bool
    decreases expr,
{
    match expr.kind {
        ExprKind::Binary { op, lhs, rhs } => if joins_conditions(op) {
            contains_msg_sender_call(names, *lhs) || contains_msg_sender_call(names, *rhs)
        } else {
            false
        },
        _ => is_msg_sender_call(names, expr),
    }
}

/// What the latest binding of `name` among `vars` says, if there is one.
pub open spec fn latest_binding(vars: Seq<VarFact>, name: Seq<char>) -> Option<bool>
    decreases vars.len(),
{
    if vars.len() == 0 {
        None
    } else if vars.last().name == name {
        Some(vars.last().is_msg_sender)
    } else {
        latest_binding(vars.drop_last(), name)
    }
}

/// Whether `name` stands for the caller's identity where the enclosing blocks
/// are `blocks`, outermost first: the innermost block that binds the name
/// decides, by its latest binding of it.
pub open spec fn is_msg_sender_name(facts: FnFacts, blocks: Seq<Span>, name: Seq<char>) -> bool
    decreases blocks.len(),
{
    if blocks.len() == 0 {
        false
    } else {
        match latest_binding(block_vars(facts, blocks.last()), name) {
            Some(is_msg_sender) => is_msg_sender,
            None => is_msg_sender_name(facts, blocks.drop_last(), name),
        }
    }
}

/// Whether `expr` is a variable that stands for the caller's identity.
pub open spec fn is_msg_sender_var(facts: FnFacts, blocks: Seq<Span>, expr: Expr) -> bool {
    expr.kind is Path && is_msg_sender_name(facts, blocks, expr.text@)
}

/// Whether a condition holds such a variable, looking through `==`, `!=`, `&&`
/// and `||` and no other operator.
pub open spec fn contains_msg_sender_var(facts: FnFacts, blocks: Seq<Span>, expr: Expr) -> bool
    decreases expr,
{
    match expr.kind {
        ExprKind::Binary { op, lhs, rhs } => if joins_conditions(op) {
            contains_msg_sender_var(facts, blocks, *lhs) || contains_msg_sender_var(
                facts,
                blocks,
                *rhs,
            )
        } else {
            false
        },
        _ => is_msg_sender_var(facts, blocks, expr),
    }
}

/// Whether a condition checks the caller: it holds a call of `msg_sender` or a
/// variable bound to one.
pub open spec fn checks_msg_sender(
    names: Seq<Seq<char>>,
    facts: FnFacts,
    blocks: Seq<Span>,
    condition: Expr,
) -> bool {
    contains_msg_sender_call(names, condition) || contains_msg_sender_var(facts, blocks, condition)
}

/// The conditions an expression guards the rest of its function with: the
/// arguments of a `require(..)`, or the condition of an `if` whose first block
/// reverts.  Any other expression is no guard.
pub open spec fn guard_conditions(expr: Expr) -> Seq<Expr> {
    match require_args(expr) {
        Some(args) => args,
        None => match expr.kind {
            ExprKind::If(if_expr) => match if_expr.condition {
                IfCondition::Expr(condition) => if has_revert(if_expr.then_block) {
                    seq![*condition]
                } else {
                    Seq::empty()
                },
                _ => Seq::empty(),
            },
            _ => Seq::empty(),
        },
    }
}

/// The path of the function that yields the caller's identity.
pub open spec fn msg_sender_path() -> Seq<&'static str> {
    seq!["std", "auth", "msg_sender"]
}

/// The module after a `use`: a name the `use` gives to `std::auth::msg_sender`
/// is added to the names it can be called by.
pub open spec fn after_use(module: ModuleFacts, tree: UseTree) -> ModuleFacts {
    match use_tree_name(tree, msg_sender_path(), 0) {
        Some(name) => ModuleFacts { names: module.names.push(name), fns: module.fns },
        None => module,
    }
}

/// The module after a statement of the function at `fn_span`: the slot of a
/// storage write is added to what the function writes.
pub open spec fn after_statement(module: ModuleFacts, fn_span: Span, statement: Statement) -> ModuleFacts {
    let facts = fn_facts(module, fn_span);
    match storage_write_idents(statement) {
        Some((slot, _)) => ModuleFacts {
            names: module.names,
            fns: module.fns.insert(
                fn_span,
                FnFacts {
                    blocks: facts.blocks,
                    checked: facts.checked,
                    written: insert_sorted(facts.written, slot.name@),
                },
            ),
        },
        None => touched(module, fn_span),
    }
}

/// The variables a `let` binds.  A lone identifier stands for the caller's
/// identity where the bound value does; the names of any other pattern do not.
pub open spec fn bound_vars(pattern: Pattern, is_msg_sender: bool) -> Seq<VarFact> {
    match pattern {
        Pattern::AmbiguousSingleIdent(ident) => seq![
            VarFact { name: ident.name@, is_msg_sender },
        ],
        _ => pattern_idents(pattern).map_values(
            |ident: Ident| VarFact { name: ident.name@, is_msg_sender: false },
        ),
    }
}

/// The module after a `let` of the function at `fn_span` inside the blocks
/// `blocks`: its variables are added to those of the innermost block.
pub open spec fn after_let(
    module: ModuleFacts,
    fn_span: Span,
    blocks: Seq<Span>,
    statement_let: StatementLet,
) -> ModuleFacts
    recommends
        blocks.len() > 0,
{
    let facts = fn_facts(module, fn_span);
    let is_msg_sender = is_msg_sender_call(module.names, statement_let.expr) || is_msg_sender_var(
        facts,
        blocks,
        statement_let.expr,
    );
    ModuleFacts {
        names: module.names,
        fns: module.fns.insert(
            fn_span,
            FnFacts {
                blocks: facts.blocks.insert(
                    blocks.last(),
                    block_vars(facts, blocks.last()) + bound_vars(
                        statement_let.pattern,
                        is_msg_sender,
                    ),
                ),
                checked: facts.checked,
                written: facts.written,
            },
        ),
    }
}

/// Whether one of `conditions` checks the caller.
pub open spec fn some_checks_msg_sender(
    names: Seq<Seq<char>>,
    facts: FnFacts,
    blocks: Seq<Span>,
    conditions: Seq<Expr>,
) -> bool {
    exists|k: int|
        0 <= k < conditions.len() && checks_msg_sender(
            names,
            facts,
            blocks,
            #[trigger] conditions[k],
        )
}

/// The module after an expression inside the blocks `blocks`.  Outside a
/// function, and for an expression that is no guard, nothing changes.  A guard
/// one of whose conditions checks the caller marks its function as checked.
pub open spec fn after_expr(
    module: ModuleFacts,
    fn_span: Option<Span>,
    blocks: Seq<Span>,
    expr: Expr,
) -> ModuleFacts {
    let conditions = guard_conditions(expr);
    match fn_span {
        Some(fn_span) => if conditions.len() > 0 {
            let facts = fn_facts(module, fn_span);
            ModuleFacts {
                names: module.names,
                fns: module.fns.insert(
                    fn_span,
                    FnFacts {
                        blocks: facts.blocks,
                        checked: facts.checked || some_checks_msg_sender(
                            module.names,
                            facts,
                            blocks,
                            conditions,
                        ),
                        written: facts.written,
                    },
                ),
            }
        } else {
            module
        },
        None => module,
    }
}

/// What a function is known of once it has taken over what is known of a
/// function it calls: it is checked if either is, and it writes what either
/// writes.
pub open spec fn merged(caller: FnFacts, callee: FnFacts) -> FnFacts {
    FnFacts {
        blocks: caller.blocks,
        checked: caller.checked || callee.checked,
        written: insert_all(caller.written, callee.written),
    }
}

/// The module after a call from the function at `caller` to the function at
/// `callee`.  A call whose target is not found changes nothing.
pub open spec fn after_call(module: ModuleFacts, caller: Option<Span>, callee: Option<Span>) -> ModuleFacts {
    match callee {
        Some(callee) => {
            let known = touched(module, callee);
            match caller {
                Some(caller) => ModuleFacts {
                    names: known.names,
                    fns: known.fns.insert(
                        caller,
                        merged(fn_facts(known, caller), fn_facts(known, callee)),
                    ),
                },
                None => known,
            }
        },
        None => module,
    }
}

/// The written slots as a finding lists them: `` `a`, `b`, `c` ``.
pub open spec fn quoted_names(names: Seq<Seq<char>>) -> Seq<char>
    decreases names.len(),
{
    if names.len() == 0 {
        Seq::empty()
    } else if names.len() == 1 {
        "`"@ + names[0] + "`"@
    } else {
        quoted_names(names.drop_last()) + ", "@ + "`"@ + names.last() + "`"@
    }
}

/// What a finding says of a function that writes `written` unchecked.
pub open spec fn finding_message(location: Seq<char>, written: Seq<Seq<char>>) -> Seq<char> {
    location + " writes to the "@ + quoted_names(written) + " storage "@ + (if written.len() == 1 {
        "variable"@
    } else {
        "variables"@
    })
        + " without access restriction. Consider checking against `msg_sender()` in order to limit access."@
}

/// Whether a function is reported: it writes storage and does not check the
/// caller.
pub open spec fn is_unprotected(facts: FnFacts) -> bool {
    facts.written.len() > 0 && !facts.checked
}

fn joins(op: &BinaryOp) -> (r: bool)
    ensures
        r == joins_conditions(*op),
{
    match op {
        BinaryOp::Equal => true,
        BinaryOp::NotEqual => true,
        BinaryOp::LogicalAnd => true,
        BinaryOp::LogicalOr => true,
        _ => false,
    }
}

impl BlockState {
    /// A block in which nothing is bound yet.
    pub fn new() -> (state: Self)
        ensures
            state@ == Seq::<VarFact>::empty(),
    {
        let state = BlockState { var_states: Vec::new() };
        assert(state@ =~= Seq::<VarFact>::empty());
        state
    }

    /// What the latest binding of `name` in this block says, if the block
    /// binds the name.
    pub fn latest_binding(&self, name: &str) -> (found: Option<bool>)
        ensures
            found == latest_binding(self@, name@),
    {
        let mut i: usize = self.var_states.len();
        assert(self@.take(i as int) =~= self@);
        while i > 0
            invariant
                i <= self.var_states@.len(),
                latest_binding(self@, name@) == latest_binding(self@.take(i as int), name@),
            decreases i,
        {
            let ghost upto = self@.take(i as int);
            assert(upto.last() == self.var_states@[i - 1]@);
            assert(upto.drop_last() =~= self@.take(i - 1));
            if text_is(&self.var_states[i - 1].name, name) {
                return Some(self.var_states[i - 1].is_msg_sender);
            }
            i -= 1;
        }
        None
    }

    /// What this block says of `expr`: for a variable the block binds, whether
    /// its latest binding stands for the caller's identity; nothing for
    /// anything else.
    pub fn expr_is_msg_sender_var(&self, expr: &Expr) -> (found: Option<bool>)
        ensures
            found == (if expr.kind is Path {
                latest_binding(self@, expr.text@)
            } else {
                None
            }),
    {
        match &expr.kind {
            ExprKind::Path(_) => self.latest_binding(expr.text.as_str()),
            _ => None,
        }
    }
}

impl Default for BlockState {
    fn default() -> (state: Self)
        ensures
            state@ == Seq::<VarFact>::empty(),
    {
        BlockState::new()
    }
}

impl Default for FnState {
    fn default() -> (state: Self)
        ensures
            state.wf(),
            state@ == no_facts(),
    {
        FnState::new()
    }
}

impl Default for ModuleState {
    fn default() -> (state: Self)
        ensures
            state.wf(),
            state@ == fresh_module(),
    {
        ModuleState::new()
    }
}

impl FnState {
    /// A function of which nothing is known yet.
    pub fn new() -> (state: Self)
        ensures
            state.wf(),
            state@ == no_facts(),
    {
        let state = FnState {
            block_states: SpanMap::new(),
            has_msg_sender_check: false,
            written_variables: Vec::new(),
        };
        assert(state.block_states@ =~= Map::<Span, Seq<VarFact>>::empty());
        assert(texts(state.written_variables@) =~= Seq::<Seq<char>>::empty());
        state
    }

    /// No block is recorded twice.
    pub open spec fn wf(&self) -> bool {
        self.block_states.wf()
    }

    /// Whether `expr` is a variable that stands for the caller's identity
    /// inside `blocks`: the innermost block that binds it decides.
    pub fn expr_is_msg_sender_var(&self, blocks: &Vec<Span>, expr: &Expr) -> (r: bool)
        requires
            self.wf(),
        ensures
            r == is_msg_sender_var(self@, blocks@, *expr),
    {
        if !matches!(&expr.kind, ExprKind::Path(_)) {
            return false;
        }
        let ghost name = expr.text;
        let mut i: usize = blocks.len();
        assert(blocks@.take(i as int) =~= blocks@);
        while i > 0
            invariant
                self.wf(),
                expr.kind is Path,
                name == expr.text,
                i <= blocks@.len(),
                is_msg_sender_name(self@, blocks@, name@) == is_msg_sender_name(
                    self@,
                    blocks@.take(i as int),
                    name@,
                ),
            decreases i,
        {
            let ghost upto = blocks@.take(i as int);
            assert(upto.last() == blocks@[i - 1]);
            assert(upto.drop_last() =~= blocks@.take(i - 1));
            if let Some(j) = self.block_states.find(blocks[i - 1]) {
                if let Some(is_msg_sender) = self.block_states.entries[j].1.expr_is_msg_sender_var(
                    expr,
                ) {
                    return is_msg_sender;
                }
            }
            i -= 1;
        }
        false
    }

    /// Whether a condition holds a variable that stands for the caller's
    /// identity.
    pub fn expr_contains_msg_sender_var(&self, blocks: &Vec<Span>, expr: &Expr) -> (r: bool)
        requires
            self.wf(),
        ensures
            r == contains_msg_sender_var(self@, blocks@, *expr),
        decreases expr,
    {
        match &expr.kind {
            ExprKind::Binary { op, lhs, rhs } => {
                if joins(op) {
                    self.expr_contains_msg_sender_var(blocks, lhs)
                        || self.expr_contains_msg_sender_var(blocks, rhs)
                } else {
                    false
                }
            },
            _ => self.expr_is_msg_sender_var(blocks, expr),
        }
    }

    /// Records `vars` as bound, in this order, in the block at `block`.
    pub fn bind(&mut self, block: Span, vars: Vec<VarState>)
        requires
            old(self).wf(),
        ensures
            final(self).wf(),
            final(self)@ == (FnFacts {
                blocks: old(self)@.blocks.insert(
                    block,
                    block_vars(old(self)@, block) + vars@.map_values(|var: VarState| var@),
                ),
                checked: old(self)@.checked,
                written: old(self)@.written,
            }),
    {
        let ghost bound = vars@.map_values(|var: VarState| var@);
        let mut vars = vars;
        let ghost had = self.block_states.has(block);
        let j = self.block_states.find_or_insert(block, BlockState::new());
        let ghost mid = *self;
        proof {
            if !had {
                SpanMap::lemma_entry_added(
                    &old(self).block_states,
                    &mid.block_states,
                    block,
                    mid.block_states.entries@[j as int].1,
                );
            }
            assert(mid.block_states.entries@[j as int].1@ == block_vars(old(self)@, block));
        }
        let ghost before = self.block_states.entries@[j as int].1.var_states@;
        self.block_states.entries[j].1.var_states.append(&mut vars);
        proof {
            SpanMap::lemma_value_changed(&mid.block_states, &self.block_states, j as int);
            let now = self.block_states.entries@[j as int].1;
            assert(now@ =~= mid.block_states.entries@[j as int].1@ + bound);
            assert(self@.blocks =~= old(self)@.blocks.insert(block, now@));
        }
    }
}

impl ModuleState {
    /// No function is recorded twice, and no block twice within a function.
    pub open spec fn wf(&self) -> bool {
        &&& self.fn_states.wf()
        &&& forall|i: int|
            0 <= i < self.fn_states.entries@.len() ==> (#[trigger] self.fn_states.entries@[i]).1.wf()
    }

    /// The state of a module before anything was visited: `msg_sender` can be
    /// called by its own name, which every module has in scope.
    pub fn new() -> (state: Self)
        ensures
            state.wf(),
            state@ == (ModuleFacts { names: seq!["msg_sender"@], fns: Map::empty() }),
    {
        let mut names: Vec<String> = Vec::new();
        names.push(String::from_str("msg_sender"));
        let state = ModuleState { msg_sender_names: names, fn_states: SpanMap::new() };
        assert(state.fn_states@ =~= Map::<Span, FnFacts>::empty());
        assert(texts(state.msg_sender_names@) =~= seq!["msg_sender"@]);
        state
    }

    fn is_msg_sender_name(&self, text: &str) -> (r: bool)
        ensures
            r == (self@.names.contains(text@) || text@ == "std::auth::msg_sender"@),
    {
        if *text == *"std::auth::msg_sender" {
            return true;
        }
        let n: usize = self.msg_sender_names.len();
        let mut i: usize = 0;
        while i < n
            invariant
                n == self.msg_sender_names@.len(),
                i <= n,
                forall|k: int| 0 <= k < i ==> self@.names[k] != text@,
            decreases n - i,
        {
            if text_is(&self.msg_sender_names[i], text) {
                assert(self@.names[i as int] == text@);
                return true;
            }
            i += 1;
        }
        false
    }

    /// Whether `expr` is a call of `msg_sender`.
    pub fn expr_is_msg_sender_call(&self, expr: &Expr) -> (r: bool)
        ensures
            r == is_msg_sender_call(self@.names, *expr),
        decreases expr,
    {
        match &expr.kind {
            ExprKind::FuncApp { func, .. } => self.is_msg_sender_name(func.text.as_str()),
            ExprKind::MethodCall { target, .. } => self.expr_is_msg_sender_call(target),
            ExprKind::Match { value, .. } => self.expr_is_msg_sender_call(value),
            _ => false,
        }
    }

    /// Whether a condition holds a call of `msg_sender`.
    pub fn expr_contains_msg_sender_call(&self, expr: &Expr) -> (r: bool)
        ensures
            r == contains_msg_sender_call(self@.names, *expr),
        decreases expr,
    {
        match &expr.kind {
            ExprKind::Binary { op, lhs, rhs } => {
                if joins(op) {
                    self.expr_contains_msg_sender_call(lhs) || self.expr_contains_msg_sender_call(
                        rhs,
                    )
                } else {
                    false
                }
            },
            _ => self.expr_is_msg_sender_call(expr),
        }
    }

    /// The place of the record of the function at `fn_span`, which is made if
    /// there is none yet.
    pub fn touch(&mut self, fn_span: Span) -> (i: usize)
        requires
            old(self).wf(),
        ensures
            final(self).wf(),
            final(self)@ == touched(old(self)@, fn_span),
            i < final(self).fn_states.entries@.len(),
            final(self).fn_states.entries@[i as int].0 == fn_span,
            final(self).fn_states.entries@[i as int].1@ == fn_facts(old(self)@, fn_span),
            final(self).msg_sender_names == old(self).msg_sender_names,
    {
        let ghost had = self.fn_states.has(fn_span);
        let i = self.fn_states.find_or_insert(fn_span, FnState::new());
        proof {
            if !had {
                SpanMap::lemma_entry_added(
                    &old(self).fn_states,
                    &self.fn_states,
                    fn_span,
                    self.fn_states.entries@[i as int].1,
                );
                assert forall|k: int| 0 <= k < self.fn_states.entries@.len() implies (
                #[trigger] self.fn_states.entries@[k]).1.wf() by {
                    if k < old(self).fn_states.entries@.len() {
                        assert(self.fn_states.entries@[k] == old(self).fn_states.entries@[k]);
                    }
                }
            }
            assert(self@.fns =~= touched(old(self)@, fn_span).fns);
        }
        i
    }
}

/// The conditions `expr` guards its function with, as places in the tree.
pub fn get_guard_conditions<'a>(expr: &'a Expr) -> (conditions: Vec<&'a Expr>)
    ensures
        conditions@.len() == guard_conditions(*expr).len(),
        forall|k: int|
            0 <= k < conditions@.len() ==> *#[trigger] conditions@[k] == guard_conditions(*expr)[k],
{
    match get_require_args(expr) {
        Some(args) => args,
        None => {
            let mut conditions: Vec<&'a Expr> = Vec::new();
            if let ExprKind::If(if_expr) = &expr.kind {
                if let IfCondition::Expr(condition) = &if_expr.condition {
                    if block_has_revert(&if_expr.then_block) {
                        conditions.push(&**condition);
                    }
                }
            }
            conditions
        },
    }
}

impl FnState {
    /// Whether one of `conditions` checks the caller.
    pub fn some_checks_msg_sender(
        &self,
        module: &ModuleState,
        blocks: &Vec<Span>,
        conditions: &Vec<&Expr>,
    ) -> (r: bool)
        requires
            self.wf(),
        ensures
            r == some_checks_msg_sender(
                module@.names,
                self@,
                blocks@,
                conditions@.map_values(|condition: &Expr| *condition),
            ),
    {
        let ghost all = conditions@.map_values(|condition: &Expr| *condition);
        let n: usize = conditions.len();
        let mut k: usize = 0;
        while k < n
            invariant
                self.wf(),
                n == conditions@.len(),
                k <= n,
                all == conditions@.map_values(|condition: &Expr| *condition),
                forall|j: int|
                    0 <= j < k ==> !checks_msg_sender(module@.names, self@, blocks@, #[trigger] all[j]),
            decreases n - k,
        {
            if module.expr_contains_msg_sender_call(conditions[k])
                || self.expr_contains_msg_sender_var(blocks, conditions[k]) {
                assert(checks_msg_sender(module@.names, self@, blocks@, all[k as int]));
                return true;
            }
            k += 1;
        }
        false
    }

    /// Takes over what is known of a called function: its check, and the
    /// storage slots it writes.
    pub fn merge(&mut self, checked: bool, written: &Vec<String>)
        requires
            old(self).wf(),
        ensures
            final(self).wf(),
            final(self)@ == (FnFacts {
                blocks: old(self)@.blocks,
                checked: old(self)@.checked || checked,
                written: insert_all(old(self)@.written, texts(written@)),
            }),
    {
        if checked {
            self.has_msg_sender_check = true;
        }
        let n: usize = written.len();
        let mut k: usize = 0;
        assert(texts(written@).skip(0) =~= texts(written@));
        while k < n
            invariant
                n == written@.len(),
                k <= n,
                self.block_states == old(self).block_states,
                self.has_msg_sender_check == (old(self).has_msg_sender_check || checked),
                insert_all(texts(self.written_variables@), texts(written@).skip(k as int))
                    == insert_all(old(self)@.written, texts(written@)),
            decreases n - k,
        {
            let ghost rest = texts(written@).skip(k as int);
            assert(rest[0] == written@[k as int]@);
            assert(rest.drop_first() =~= texts(written@).skip(k + 1));
            insert_name(&mut self.written_variables, written[k].clone());
            k += 1;
        }
    }

    /// What the finding for this function lists: `` `a`, `b`, `c` ``.
    fn quoted_written(&self) -> (text: String)
        ensures
            text@ == quoted_names(self@.written),
    {
        let mut text = String::new();
        let n: usize = self.written_variables.len();
        let mut k: usize = 0;
        assert(self@.written.take(0) =~= Seq::<Seq<char>>::empty());
        while k < n
            invariant
                n == self.written_variables@.len(),
                k <= n,
                text@ == quoted_names(self@.written.take(k as int)),
            decreases n - k,
        {
            let ghost upto = self@.written.take(k + 1);
            assert(upto.drop_last() =~= self@.written.take(k as int));
            assert(upto.last() == self.written_variables@[k as int]@);
            if k > 0 {
                text.append(", ");
            }
            text.append("`");
            text.append(self.written_variables[k].as_str());
            text.append("`");
            proof {
                if k == 0 {
                    assert(upto.len() == 1);
                    assert(text@ =~= "`"@ + upto[0] + "`"@);
                } else {
                    assert(text@ =~= quoted_names(upto.drop_last()) + ", "@ + "`"@ + upto.last()
                        + "`"@);
                }
            }
            k += 1;
        }
        assert(self@.written.take(n as int) =~= self@.written);
        text
    }

    /// The message of the finding for this function, named `location`, if it
    /// writes storage without checking the caller.
    pub fn unprotected_message(&self, location: &str) -> (message: Option<String>)
        ensures
            match message {
                Some(text) => is_unprotected(self@) && text@ == finding_message(
                    location@,
                    self@.written,
                ),
                None => !is_unprotected(self@),
            },
    {
        if self.written_variables.len() == 0 || self.has_msg_sender_check {
            return None;
        }
        let mut text = String::from_str(location);
        text.append(" writes to the ");
        let written = self.quoted_written();
        text.append(written.as_str());
        text.append(" storage ");
        if self.written_variables.len() == 1 {
            text.append("variable");
        } else {
            text.append("variables");
        }
        text.append(
            " without access restriction. Consider checking against `msg_sender()` in order to limit access.",
        );
        Some(text)
    }
}

impl ModuleState {
    /// Takes note of a `use`: a name it gives to `std::auth::msg_sender`
    /// becomes a name `msg_sender` can be called by.
    pub fn visit_use(&mut self, tree: &UseTree)
        requires
            old(self).wf(),
        ensures
            final(self).wf(),
            final(self)@ == after_use(old(self)@, *tree),
    {
        let mut path: Vec<&str> = Vec::new();
        path.push("std");
        path.push("auth");
        path.push("msg_sender");
        assert(path@ =~= msg_sender_path());
        if let Some(name) = use_tree_to_name(tree, path.as_slice(), 0) {
            self.msg_sender_names.push(name);
            assert(texts(self.msg_sender_names@) =~= texts(old(self).msg_sender_names@).push(name@));
        }
    }

    /// Takes note of a statement of the function at `fn_span`: the slot of a
    /// storage write is added to what the function writes.
    pub fn visit_statement(&mut self, fn_span: Span, statement: &Statement)
        requires
            old(self).wf(),
        ensures
            final(self).wf(),
            final(self)@ == after_statement(old(self)@, fn_span, *statement),
    {
        let i = self.touch(fn_span);
        if let Some((slot, _)) = statement_to_storage_write_idents(statement) {
            let ghost mid = *self;
            insert_name(&mut self.fn_states.entries[i].1.written_variables, slot.name);
            proof {
                SpanMap::lemma_value_changed(&mid.fn_states, &self.fn_states, i as int);
                assert(self@.fns =~= after_statement(old(self)@, fn_span, *statement).fns);
            }
        }
    }

    /// Takes note of a `let` of the function at `fn_span` inside the blocks
    /// `blocks`, outermost first.
    pub fn visit_statement_let(
        &mut self,
        fn_span: Span,
        blocks: &Vec<Span>,
        statement_let: &StatementLet,
    )
        requires
            old(self).wf(),
            blocks@.len() > 0,
        ensures
            final(self).wf(),
            final(self)@ == after_let(old(self)@, fn_span, blocks@, *statement_let),
    {
        let mut is_msg_sender = self.expr_is_msg_sender_call(&statement_let.expr);
        let i = self.touch(fn_span);
        if !is_msg_sender {
            is_msg_sender =
            self.fn_states.entries[i].1.expr_is_msg_sender_var(blocks, &statement_let.expr);
        }
        let mut vars: Vec<VarState> = Vec::new();
        match &statement_let.pattern {
            Pattern::AmbiguousSingleIdent(ident) => {
                vars.push(VarState { name: ident.name.clone(), is_msg_sender });
                assert(vars@.map_values(|var: VarState| var@) =~= bound_vars(
                    statement_let.pattern,
                    is_msg_sender,
                ));
            },
            pattern => {
                let idents = fold_pattern_idents(pattern);
                let n: usize = idents.len();
                let mut k: usize = 0;
                while k < n
                    invariant
                        n == idents@.len(),
                        k <= n,
                        vars@.len() == k,
                        forall|j: int|
                            0 <= j < k ==> (#[trigger] vars@[j])@ == (VarFact {
                                name: idents@[j].name@,
                                is_msg_sender: false,
                            }),
                    decreases n - k,
                {
                    vars.push(VarState { name: idents[k].name.clone(), is_msg_sender: false });
                    k += 1;
                }
                assert(vars@.map_values(|var: VarState| var@) =~= bound_vars(
                    statement_let.pattern,
                    is_msg_sender,
                ));
            },
        }
        let ghost mid = *self;
        self.fn_states.entries[i].1.bind(blocks[blocks.len() - 1], vars);
        proof {
            SpanMap::lemma_value_changed(&mid.fn_states, &self.fn_states, i as int);
            assert(self@.fns =~= after_let(old(self)@, fn_span, blocks@, *statement_let).fns);
        }
    }

    /// Takes note of an expression inside the blocks `blocks`: a guard that
    /// checks the caller marks the function at `fn_span` as checked.
    pub fn visit_expr(&mut self, fn_span: Option<Span>, blocks: &Vec<Span>, expr: &Expr)
        requires
            old(self).wf(),
        ensures
            final(self).wf(),
            final(self)@ == after_expr(old(self)@, fn_span, blocks@, *expr),
    {
        let conditions = get_guard_conditions(expr);
        assert(conditions@.map_values(|condition: &Expr| *condition) =~= guard_conditions(*expr));
        if conditions.len() == 0 {
            return ;
        }
        if let Some(fn_span) = fn_span {
            let i = self.touch(fn_span);
            let ghost mid = *self;
            let checks = self.fn_states.entries[i].1.some_checks_msg_sender(
                self,
                blocks,
                &conditions,
            );
            if checks {
                self.fn_states.entries[i].1.has_msg_sender_check = true;
            }
            proof {
                SpanMap::lemma_value_changed(&mid.fn_states, &self.fn_states, i as int);
                assert(self@.fns =~= after_expr(old(self)@, Some(fn_span), blocks@, *expr).fns);
            }
        }
    }

    /// Hands what is known of the function at `callee` to the function at
    /// `caller` that calls it.  Nothing happens where the called function was
    /// not found.
    pub fn propagate(&mut self, caller: Option<Span>, callee: Option<Span>)
        requires
            old(self).wf(),
        ensures
            final(self).wf(),
            final(self)@ == after_call(old(self)@, caller, callee),
    {
        if let Some(callee) = callee {
            let c = self.touch(callee);
            let checked = self.fn_states.entries[c].1.has_msg_sender_check;
            let mut written: Vec<String> = Vec::new();
            let n: usize = self.fn_states.entries[c].1.written_variables.len();
            let mut k: usize = 0;
            while k < n
                invariant
                    c < self.fn_states.entries@.len(),
                    n == self.fn_states.entries@[c as int].1.written_variables@.len(),
                    k <= n,
                    written@ == self.fn_states.entries@[c as int].1.written_variables@.take(
                        k as int,
                    ),
                decreases n - k,
            {
                written.push(self.fn_states.entries[c].1.written_variables[k].clone());
                assert(written@ =~= self.fn_states.entries@[c as int].1.written_variables@.take(
                    k + 1,
                ));
                k += 1;
            }
            assert(written@ =~= self.fn_states.entries@[c as int].1.written_variables@);
            if let Some(caller) = caller {
                let ghost known = *self;
                let f = self.touch(caller);
                let ghost mid = *self;
                self.fn_states.entries[f].1.merge(checked, &written);
                proof {
                    SpanMap::lemma_value_changed(&mid.fn_states, &self.fn_states, f as int);
                    assert(fn_facts(known@, callee) == known.fn_states.entries@[c as int].1@);
                    assert(self@.fns =~= after_call(old(self)@, Some(caller), Some(callee)).fns);
                }
            }
        }
    }
}

/// The signature of the first function called `name` among the items from
/// the `from`-th on.
pub open spec fn find_fn_in_items(items: Seq<Item>, name: Seq<char>, from: nat) -> Option<Span>
    decreases items.len() - from,
{
    if from >= items.len() {
        None
    } else {
        match items[from as int].value {
            ItemKind::Fn(item_fn) => if item_fn.fn_signature.name.name@ == name {
                Some(item_fn.fn_signature.span)
            } else {
                find_fn_in_items(items, name, from + 1)
            },
            _ => find_fn_in_items(items, name, from + 1),
        }
    }
}

/// The signature of the first function called `name` among the members of an
/// implementation from the `from`-th on.
pub open spec fn find_fn_in_impl(contents: Seq<ItemImplItem>, name: Seq<char>, from: nat) -> Option<
    Span,
>
    decreases contents.len() - from,
{
    if from >= contents.len() {
        None
    } else {
        match contents[from as int] {
            ItemImplItem::Fn(item_fn) => if item_fn.fn_signature.name.name@ == name {
                Some(item_fn.fn_signature.span)
            } else {
                find_fn_in_impl(contents, name, from + 1)
            },
            _ => find_fn_in_impl(contents, name, from + 1),
        }
    }
}

/// The function a call written as `name` goes to: the first function of that
/// name at the top of the module, else the first of that name in the enclosing
/// implementation.  A call to anything else is not resolved.
pub open spec fn resolve_callee(module: &Module, item_impl: Option<&ItemImpl>, name: Seq<char>) -> Option<
    Span,
> {
    match find_fn_in_items(module.items@, name, 0) {
        Some(span) => Some(span),
        None => match item_impl {
            Some(item_impl) => find_fn_in_impl(item_impl.contents@, name, 0),
            None => None,
        },
    }
}

/// Resolves a call written as `name` to the signature of the called function.
pub fn find_callee(module: &Module, item_impl: Option<&ItemImpl>, name: &str) -> (callee: Option<
    Span,
>)
    ensures
        callee == resolve_callee(module, item_impl, name@),
{
    let n: usize = module.items.len();
    let mut i: usize = 0;
    while i < n
        invariant
            n == module.items@.len(),
            i <= n,
            find_fn_in_items(module.items@, name@, 0) == find_fn_in_items(
                module.items@,
                name@,
                i as nat,
            ),
        decreases n - i,
    {
        if let ItemKind::Fn(item_fn) = &module.items[i].value {
            if text_is(&item_fn.fn_signature.name.name, name) {
                return Some(item_fn.fn_signature.span);
            }
        }
        i += 1;
    }
    if let Some(enclosing) = item_impl {
        let m: usize = enclosing.contents.len();
        let mut k: usize = 0;
        while k < m
            invariant
                item_impl == Some(enclosing),
                m == enclosing.contents@.len(),
                k <= m,
                find_fn_in_items(module.items@, name@, 0) is None,
                find_fn_in_impl(enclosing.contents@, name@, 0) == find_fn_in_impl(
                    enclosing.contents@,
                    name@,
                    k as nat,
                ),
            decreases m - k,
        {
            if let ItemImplItem::Fn(item_fn) = &enclosing.contents[k] {
                if text_is(&item_fn.fn_signature.name.name, name) {
                    return Some(item_fn.fn_signature.span);
                }
            }
            k += 1;
        }
    }
    None
}

/// The signature of the enclosing function, if there is one.
pub open spec fn enclosing_fn(scope: Scope) -> Option<Span> {
    match scope.item_fn {
        Some(item_fn) => Some(item_fn.fn_signature.span),
        None => None,
    }
}

/// The type of the enclosing implementation as written, if there is one.
pub open spec fn enclosing_impl_ty(scope: Scope) -> Option<Seq<char>> {
    match scope.item_impl {
        Some(item_impl) => Some(item_impl.ty@),
        None => None,
    }
}

/// The module after an expression of the second pass: a call hands what is
/// known of the called function to the enclosing function.
pub open spec fn call_visited<'a>(
    module_facts: ModuleFacts,
    module: &'a Module,
    scope: Scope<'a>,
    expr: &'a Expr,
) -> ModuleFacts {
    match expr.kind {
        ExprKind::FuncApp { func, .. } => after_call(
            module_facts,
            enclosing_fn(scope),
            resolve_callee(module, scope.item_impl, func.text@),
        ),
        _ => module_facts,
    }
}

/// What the second pass does on leaving a function: a function that writes
/// storage and does not check the caller gets one finding of high severity at
/// the line of its signature, or the error of looking that line up.
pub open spec fn fn_left<'a>(
    module_facts: ModuleFacts,
    files: Seq<SourceFile>,
    module: &'a Module,
    scope: Scope<'a>,
    item_fn: &'a ItemFn,
) -> Outcome<ModuleFacts> {
    let span = item_fn.fn_signature.span;
    let facts = fn_facts(module_facts, span);
    let state = touched(module_facts, span);
    if is_unprotected(facts) {
        match resolve_line(files, module.path@, span) {
            Ok(line) => Outcome {
                state,
                findings: seq![
                    FindingView {
                        path: module.path@,
                        line,
                        severity: Severity::High,
                        message: finding_message(
                            item_location(enclosing_impl_ty(scope), item_fn.fn_signature.name.name@),
                            facts.written,
                        ),
                    },
                ],
                error: None,
            },
            Err(error) => Outcome { state, findings: Seq::empty(), error: Some(error) },
        }
    } else {
        unchanged(state)
    }
}

/// The second pass over a module: what is known of called functions is handed
/// to their callers, and each function is checked when it is left.
#[derive(Debug)]
pub struct PropagationVisitor {
    pub state: ModuleState,
}

impl PropagationVisitor {
    /// Takes note of an expression: a call hands what is known of the called
    /// function to the enclosing function.
    pub fn visit_expr<'a>(&mut self, context: &Context<'a>, expr: &'a Expr)
        requires
            old(self).state.wf(),
        ensures
            final(self).state.wf(),
            final(self).state@ == call_visited(old(self).state@, context.module, context@, expr),
    {
        if let ExprKind::FuncApp { func, .. } = &expr.kind {
            let callee = find_callee(context.module, context.item_impl, func.text.as_str());
            let caller = match context.item_fn {
                Some(item_fn) => Some(item_fn.fn_signature.span),
                None => None,
            };
            self.state.propagate(caller, callee);
        }
    }

    /// Checks a function that is being left, and reports it if it writes
    /// storage without checking the caller.
    pub fn leave_fn<'a>(&mut self, context: &Context<'a>, item_fn: &'a ItemFn, project: &mut Project) -> (result:
        Result<(), Error>)
        requires
            old(self).state.wf(),
        ensures
            final(self).state.wf(),
            follows(
                fn_left(old(self).state@, old(project).files@, context.module, context@, item_fn),
                final(self).state@,
                *old(project),
                *final(project),
                result,
            ),
    {
        let span = item_fn.fn_signature.span;
        let i = self.state.touch(span);
        let impl_ty = match context.item_impl {
            Some(item_impl) => Some(&item_impl.ty),
            None => None,
        };
        let location = get_item_location(impl_ty, &item_fn.fn_signature.name.name);
        let message = match self.state.fn_states.entries[i].1.unprotected_message(
            location.as_str(),
        ) {
            Some(message) => message,
            None => {
                assert(project.report@ + Seq::<FindingView>::empty() =~= project.report@);
                return Ok(());
            },
        };
        let line = match project.span_to_line(context.module.path.as_str(), &span) {
            Ok(line) => line,
            Err(error) => {
                assert(project.report@ + Seq::<FindingView>::empty() =~= project.report@);
                return Err(error);
            },
        };
        project.report.add_entry(context.module.path.as_str(), line, Severity::High, message);
        proof {
            let outcome = fn_left(
                old(self).state@,
                old(project).files@,
                context.module,
                context@,
                item_fn,
            );
            assert(outcome.findings.len() == 1);
            assert(project.report@ =~= old(project).report@ + outcome.findings);
        }
        Ok(())
    }
}

impl AstVisitor for PropagationVisitor {
    type State = ModuleFacts;

    open spec fn wf(&self) -> bool {
        self.state.wf()
    }

    open spec fn state(&self) -> ModuleFacts {
        self.state@
    }

    open spec fn module_entered(state: ModuleFacts, files: Seq<SourceFile>, module: &Module) -> Outcome<
        ModuleFacts,
    > {
        unchanged(state)
    }

    open spec fn visited<'a>(
        state: ModuleFacts,
        files: Seq<SourceFile>,
        module: &'a Module,
        scope: Scope<'a>,
        node: Node<'a>,
    ) -> Outcome<ModuleFacts> {
        match node {
            Node::Expr(expr) => unchanged(call_visited(state, module, scope, expr)),
            Node::LeaveFn(item_fn) => fn_left(state, files, module, scope, item_fn),
            _ => unchanged(state),
        }
    }

    open spec fn module_left(state: ModuleFacts, files: Seq<SourceFile>, module: &Module) -> Outcome<
        ModuleFacts,
    > {
        unchanged(state)
    }

    fn visit_module(&mut self, module: &Module, project: &mut Project) -> (result: Result<
        (),
        Error,
    >) {
        assert(project.report@ + Seq::<FindingView>::empty() =~= project.report@);
        Ok(())
    }

    fn visit<'a>(&mut self, context: &Context<'a>, node: &Node<'a>, project: &mut Project) -> (result:
        Result<(), Error>) {
        match node {
            Node::Expr(expr) => {
                self.visit_expr(context, expr);
                assert(project.report@ + Seq::<FindingView>::empty() =~= project.report@);
                Ok(())
            },
            Node::LeaveFn(item_fn) => self.leave_fn(context, item_fn, project),
            _ => {
                assert(project.report@ + Seq::<FindingView>::empty() =~= project.report@);
                Ok(())
            },
        }
    }

    fn leave_module(&mut self, module: &Module, project: &mut Project) -> (result: Result<
        (),
        Error,
    >) {
        assert(project.report@ + Seq::<FindingView>::empty() =~= project.report@);
        Ok(())
    }
}

/// What is known of every module visited so far, by the path of its file, in
/// the order in which the modules were first visited.
pub type ModulesFacts = Seq<(Seq<char>, ModuleFacts)>;

/// What is known of a module before anything of it was visited.
pub open spec fn fresh_module() -> ModuleFacts {
    ModuleFacts { names: seq!["msg_sender"@], fns: Map::empty() }
}

/// The place of the module at `path` at or after `from`, or the number of
/// modules if it is not among them.
pub open spec fn module_index(modules: ModulesFacts, path: Seq<char>, from: nat) -> nat
    decreases modules.len() - from,
{
    if from >= modules.len() {
        modules.len()
    } else if modules[from as int].0 == path {
        from
    } else {
        module_index(modules, path, from + 1)
    }
}

/// What is known of the module at `path`.
pub open spec fn module_facts(modules: ModulesFacts, path: Seq<char>) -> ModuleFacts {
    let i = module_index(modules, path, 0);
    if i < modules.len() {
        modules[i as int].1
    } else {
        fresh_module()
    }
}

/// `modules` with `facts` as what is known of the module at `path`.
pub open spec fn with_module(modules: ModulesFacts, path: Seq<char>, facts: ModuleFacts) -> ModulesFacts {
    let i = module_index(modules, path, 0);
    if i < modules.len() {
        modules.update(i as int, (path, facts))
    } else {
        modules.push((path, facts))
    }
}

/// The module at `path` stands at its place and nowhere before it.
pub proof fn lemma_module_index(modules: ModulesFacts, path: Seq<char>, from: nat)
    requires
        from <= modules.len(),
    ensures
        from <= module_index(modules, path, from) <= modules.len(),
        module_index(modules, path, from) < modules.len() ==> modules[module_index(
            modules,
            path,
            from,
        ) as int].0 == path,
        forall|k: int|
            from <= k < module_index(modules, path, from) ==> (#[trigger] modules[k]).0 != path,
    decreases modules.len() - from,
{
    if from < modules.len() && modules[from as int].0 != path {
        lemma_module_index(modules, path, from + 1);
    }
}

/// A place that holds `path`, with no earlier place holding it, is the place
/// of the module at `path`.
pub proof fn lemma_module_index_is(modules: ModulesFacts, path: Seq<char>, i: nat, from: nat)
    requires
        from <= i <= modules.len(),
        i < modules.len() ==> modules[i as int].0 == path,
        forall|k: int| from <= k < i ==> (#[trigger] modules[k]).0 != path,
    ensures
        module_index(modules, path, from) == i,
    decreases i - from,
{
    if from < i {
        lemma_module_index_is(modules, path, i, from + 1);
    }
}

/// What was recorded last for a module is what is known of it, and recording
/// twice is recording the second.
pub proof fn lemma_with_module(
    modules: ModulesFacts,
    path: Seq<char>,
    first: ModuleFacts,
    second: ModuleFacts,
)
    ensures
        module_facts(with_module(modules, path, first), path) == first,
        with_module(with_module(modules, path, first), path, second) == with_module(
            modules,
            path,
            second,
        ),
{
    let i = module_index(modules, path, 0);
    let recorded = with_module(modules, path, first);
    lemma_module_index(modules, path, 0);
    assert forall|k: int| 0 <= k < i implies (#[trigger] recorded[k]).0 != path by {
        assert(recorded[k] == modules[k]);
    }
    lemma_module_index_is(recorded, path, i, 0);
    assert(with_module(recorded, path, second) =~= with_module(modules, path, second));
}

/// The views of the states of a list of modules.
pub open spec fn modules_facts(module_states: Seq<(String, ModuleState)>) -> ModulesFacts {
    module_states.map_values(|entry: (String, ModuleState)| (entry.0@, entry.1@))
}

/// Reports functions that write storage without checking who is calling.
#[derive(Debug)]
pub struct UnprotectedStorageVariablesVisitor {
    pub module_states: Vec<(String, ModuleState)>,
}

impl Default for UnprotectedStorageVariablesVisitor {
    fn default() -> (visitor: Self)
        ensures
            visitor.wf(),
            visitor.state() == Seq::<(Seq<char>, ModuleFacts)>::empty(),
    {
        let visitor = UnprotectedStorageVariablesVisitor { module_states: Vec::new() };
        assert(visitor.state() =~= Seq::<(Seq<char>, ModuleFacts)>::empty());
        visitor
    }
}

impl UnprotectedStorageVariablesVisitor {
    /// The place of the state of the module at `path`, which is made if the
    /// module was not visited before.
    pub fn module_state(&mut self, path: &str) -> (i: usize)
        requires
            old(self).wf(),
        ensures
            final(self).wf(),
            final(self).state() == with_module(
                old(self).state(),
                path@,
                module_facts(old(self).state(), path@),
            ),
            i == module_index(final(self).state(), path@, 0),
            i < final(self).module_states@.len(),
            final(self).module_states@[i as int].0@ == path@,
            final(self).module_states@[i as int].1@ == module_facts(old(self).state(), path@),
    {
        let n: usize = self.module_states.len();
        let mut i: usize = 0;
        while i < n && !text_is(&self.module_states[i].0, path)
            invariant
                n == self.module_states@.len(),
                i <= n,
                module_index(self.state(), path@, 0) == module_index(self.state(), path@, i as nat),
            decreases n - i,
        {
            i += 1;
        }
        proof {
            lemma_module_index(self.state(), path@, 0);
        }
        if i >= n {
            self.module_states.push((String::from_str(path), ModuleState::new()));
            assert(self.state() =~= old(self).state().push((path@, fresh_module())));
        } else {
            assert(self.state() =~= old(self).state().update(
                i as int,
                (path@, old(self).state()[i as int].1),
            ));
        }
        proof {
            lemma_with_module(
                old(self).state(),
                path@,
                module_facts(old(self).state(), path@),
                module_facts(old(self).state(), path@),
            );
            lemma_module_index(self.state(), path@, 0);
            assert forall|k: int| 0 <= k < i implies (#[trigger] self.state()[k]).0 != path@ by {
                assert(self.state()[k] == old(self).state()[k]);
            }
            lemma_module_index_is(self.state(), path@, i as nat, 0);
        }
        i
    }

    /// Takes note of a `use` of the module.
    pub fn visit_use<'a>(&mut self, context: &Context<'a>, item_use: &'a ItemUse)
        requires
            old(self).wf(),
        ensures
            final(self).wf(),
            final(self).state() == with_module(
                old(self).state(),
                context.module.path@,
                after_use(module_facts(old(self).state(), context.module.path@), item_use.tree),
            ),
    {
        let i = self.module_state(context.module.path.as_str());
        let ghost mid = self.state();
        self.module_states[i].1.visit_use(&item_use.tree);
        proof {
            let path = context.module.path@;
            assert(self.state() =~= with_module(mid, path, self.module_states@[i as int].1@));
            lemma_with_module(
                old(self).state(),
                path,
                module_facts(old(self).state(), path),
                self.module_states@[i as int].1@,
            );
        }
    }

    /// Takes note of a statement of a function.  A statement outside any
    /// function holds nothing to note.
    pub fn visit_statement<'a>(&mut self, context: &Context<'a>, statement: &'a Statement)
        requires
            old(self).wf(),
        ensures
            final(self).wf(),
            final(self).state() == statement_visited(old(self).state(), context.module, context@, statement),
    {
        if let Some(item_fn) = context.item_fn {
            let i = self.module_state(context.module.path.as_str());
            let ghost mid = self.state();
            self.module_states[i].1.visit_statement(item_fn.fn_signature.span, statement);
            proof {
                let path = context.module.path@;
                assert(self.state() =~= with_module(mid, path, self.module_states@[i as int].1@));
                lemma_with_module(
                    old(self).state(),
                    path,
                    module_facts(old(self).state(), path),
                    self.module_states@[i as int].1@,
                );
            }
        }
    }

    /// Takes note of a `let` of a function.  A `let` outside any function or
    /// block holds nothing to note.
    pub fn visit_statement_let<'a>(&mut self, context: &Context<'a>, statement_let: &'a StatementLet)
        requires
            old(self).wf(),
        ensures
            final(self).wf(),
            final(self).state() == statement_let_visited(
                old(self).state(),
                context.module,
                context@,
                statement_let,
            ),
    {
        if let Some(item_fn) = context.item_fn {
            if context.blocks.len() > 0 {
                let i = self.module_state(context.module.path.as_str());
                let ghost mid = self.state();
                self.module_states[i].1.visit_statement_let(
                    item_fn.fn_signature.span,
                    &context.blocks,
                    statement_let,
                );
                proof {
                    let path = context.module.path@;
                    assert(self.state() =~= with_module(
                        mid,
                        path,
                        self.module_states@[i as int].1@,
                    ));
                    lemma_with_module(
                        old(self).state(),
                        path,
                        module_facts(old(self).state(), path),
                        self.module_states@[i as int].1@,
                    );
                }
            }
        }
    }

    /// Takes note of an expression: a guard that checks the caller marks the
    /// enclosing function as checked.
    pub fn visit_expr<'a>(&mut self, context: &Context<'a>, expr: &'a Expr)
        requires
            old(self).wf(),
        ensures
            final(self).wf(),
            final(self).state() == expr_visited(old(self).state(), context.module, context@, expr),
    {
        let fn_span = match context.item_fn {
            Some(item_fn) => Some(item_fn.fn_signature.span),
            None => None,
        };
        let i = self.module_state(context.module.path.as_str());
        let ghost mid = self.state();
        self.module_states[i].1.visit_expr(fn_span, &context.blocks, expr);
        proof {
            let path = context.module.path@;
            assert(self.state() =~= with_module(mid, path, self.module_states@[i as int].1@));
            lemma_with_module(
                old(self).state(),
                path,
                module_facts(old(self).state(), path),
                self.module_states@[i as int].1@,
            );
        }
    }

    /// Runs the second pass over the module that is being left: what is known
    /// of called functions is handed to their callers, and every function that
    /// then writes storage without checking the caller is reported.
    pub fn leave_module(&mut self, module: &Module, project: &mut Project) -> (result: Result<
        (),
        Error,
    >)
        requires
            old(self).wf(),
        ensures
            final(self).wf(),
            follows(
                second_pass(old(self).state(), old(project).files@, module),
                final(self).state(),
                *old(project),
                *final(project),
                result,
            ),
    {
        let i = self.module_state(module.path.as_str());
        let ghost mid = self.state();
        let ghost before = self.module_states@;
        let (path, state) = self.module_states.remove(i);
        let mut pass = PropagationVisitor { state };
        let nodes = walk_module(module);
        let result = drive(&mut pass, module, &nodes, project);
        self.module_states.insert(i, (path, pass.state));
        proof {
            assert(self.module_states@ =~= before.update(i as int, (path, pass.state)));
            assert(self.state() =~= with_module(mid, module.path@, pass.state@));
            lemma_with_module(
                old(self).state(),
                module.path@,
                module_facts(old(self).state(), module.path@),
                pass.state@,
            );
            assert forall|k: int| 0 <= k < self.module_states@.len() implies (
            #[trigger] self.module_states@[k]).1.wf() by {
                if k != i {
                    assert(self.module_states@[k] == before[k]);
                }
            }
        }
        result
    }

    /// Every module state is well formed.
    pub open spec fn wf(&self) -> bool {
        forall|i: int|
            0 <= i < self.module_states@.len() ==> (#[trigger] self.module_states@[i]).1.wf()
    }

    /// What the visitor knows of each module.
    pub open spec fn state(&self) -> ModulesFacts {
        modules_facts(self.module_states@)
    }
}

/// What is known after a statement in `scope`: inside a function, the module's
/// facts after the statement; outside, what was known before.
pub open spec fn statement_visited<'a>(
    modules: ModulesFacts,
    module: &'a Module,
    scope: Scope<'a>,
    statement: &'a Statement,
) -> ModulesFacts {
    match scope.item_fn {
        Some(item_fn) => with_module(
            modules,
            module.path@,
            after_statement(
                module_facts(modules, module.path@),
                item_fn.fn_signature.span,
                *statement,
            ),
        ),
        None => modules,
    }
}

/// What is known after a `let` in `scope`: inside a block of a function, the
/// module's facts after the `let`; elsewhere, what was known before.
pub open spec fn statement_let_visited<'a>(
    modules: ModulesFacts,
    module: &'a Module,
    scope: Scope<'a>,
    statement_let: &'a StatementLet,
) -> ModulesFacts {
    match scope.item_fn {
        Some(item_fn) => if scope.blocks.len() > 0 {
            with_module(
                modules,
                module.path@,
                after_let(
                    module_facts(modules, module.path@),
                    item_fn.fn_signature.span,
                    scope.blocks,
                    *statement_let,
                ),
            )
        } else {
            modules
        },
        None => modules,
    }
}

/// What is known after an expression in `scope`.
pub open spec fn expr_visited<'a>(
    modules: ModulesFacts,
    module: &'a Module,
    scope: Scope<'a>,
    expr: &'a Expr,
) -> ModulesFacts {
    with_module(
        modules,
        module.path@,
        after_expr(module_facts(modules, module.path@), enclosing_fn(scope), scope.blocks, *expr),
    )
}

/// What the second pass makes of a module: the outcome of driving it over the
/// steps of the module, begun with what the first pass left.
pub open spec fn second_pass(modules: ModulesFacts, files: Seq<SourceFile>, module: &Module) -> Outcome<
    ModulesFacts,
> {
    let pass = driven::<PropagationVisitor>(
        module_facts(modules, module.path@),
        files,
        module,
        top_scope(),
        module_nodes(module),
        0,
    );
    Outcome {
        state: with_module(modules, module.path@, pass.state),
        findings: pass.findings,
        error: pass.error,
    }
}

impl AstVisitor for UnprotectedStorageVariablesVisitor {
    type State = ModulesFacts;

    open spec fn wf(&self) -> bool {
        UnprotectedStorageVariablesVisitor::wf(self)
    }

    open spec fn state(&self) -> ModulesFacts {
        UnprotectedStorageVariablesVisitor::state(self)
    }

    open spec fn module_entered(state: ModulesFacts, files: Seq<SourceFile>, module: &Module) -> Outcome<
        ModulesFacts,
    > {
        unchanged(state)
    }

    open spec fn visited<'a>(
        state: ModulesFacts,
        files: Seq<SourceFile>,
        module: &'a Module,
        scope: Scope<'a>,
        node: Node<'a>,
    ) -> Outcome<ModulesFacts> {
        match node {
            Node::Use(item_use) => unchanged(
                with_module(
                    state,
                    module.path@,
                    after_use(module_facts(state, module.path@), item_use.tree),
                ),
            ),
            Node::Statement(statement) => unchanged(
                statement_visited(state, module, scope, statement),
            ),
            Node::StatementLet(statement_let) => unchanged(
                statement_let_visited(state, module, scope, statement_let),
            ),
            Node::Expr(expr) => unchanged(expr_visited(state, module, scope, expr)),
            _ => unchanged(state),
        }
    }

    open spec fn module_left(state: ModulesFacts, files: Seq<SourceFile>, module: &Module) -> Outcome<
        ModulesFacts,
    > {
        second_pass(state, files, module)
    }

    fn visit_module(&mut self, module: &Module, project: &mut Project) -> (result: Result<
        (),
        Error,
    >) {
        assert(project.report@ + Seq::<FindingView>::empty() =~= project.report@);
        Ok(())
    }

    fn visit<'a>(&mut self, context: &Context<'a>, node: &Node<'a>, project: &mut Project) -> (result:
        Result<(), Error>) {
        assert(project.report@ + Seq::<FindingView>::empty() =~= project.report@);
        match node {
            Node::Use(item_use) => {
                self.visit_use(context, item_use);
            },
            Node::Statement(statement) => {
                self.visit_statement(context, statement);
            },
            Node::StatementLet(statement_let) => {
                self.visit_statement_let(context, statement_let);
            },
            Node::Expr(expr) => {
                self.visit_expr(context, expr);
            },
            _ => {},
        }
        Ok(())
    }

    fn leave_module(&mut self, module: &Module, project: &mut Project) -> (result: Result<
        (),
        Error,
    >) {
        UnprotectedStorageVariablesVisitor::leave_module(self, module, project)
    }
}

} // verus!
