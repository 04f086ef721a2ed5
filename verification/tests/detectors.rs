use sway_analyzer::ast::{
    AsmBlock, BinaryOp, CodeBlock, ElseBranch, Expr, ExprKind, Ident, IfCondition, IfExpr, Item,
    ItemFn, ItemImpl, ItemImplItem, ItemKind, ItemUse, FnSignature, Module, PathExpr, Pattern,
    Punctuated, Span, Statement, StatementLet, UnaryOp, UseTree,
};
use sway_analyzer::detectors::inline_assembly_usage::InlineAssemblyUsageVisitor;
use sway_analyzer::detectors::unprotected_storage_variables::{
    find_callee, get_guard_conditions, BlockState, FnState, ModuleState,
    UnprotectedStorageVariablesVisitor, VarState,
};
use sway_analyzer::detectors::{create_detector, detector_names, Detector};
use sway_analyzer::report::{Error, Finding, Project, Severity, SourceFile};
use sway_analyzer::visitor::{visit_module_with, walk_module, Node};

const PATH: &str = "src/main.sw";

fn span(start: usize, end: usize) -> Span {
    Span { start, end }
}

fn ident(name: &str) -> Ident {
    Ident { name: name.to_string(), span: span(0, name.len()) }
}

fn punctuated<T>(mut values: Vec<T>) -> Punctuated<T, Span> {
    let last = values.pop();
    Punctuated {
        value_separator_pairs: values.into_iter().map(|value| (value, span(0, 1))).collect(),
        final_value_opt: last.map(Box::new),
    }
}

fn expr(text: String, kind: ExprKind) -> Expr {
    Expr { span: span(0, text.len()), text, kind }
}

fn path(name: &str) -> Expr {
    let mut names = name.split("::");
    let prefix = ident(names.next().unwrap());
    let suffix = names.map(ident).collect();
    expr(name.to_string(), ExprKind::Path(PathExpr { prefix, suffix }))
}

fn literal(text: &str) -> Expr {
    expr(text.to_string(), ExprKind::Literal)
}

fn texts(exprs: &[Expr]) -> String {
    exprs.iter().map(|e| e.text.clone()).collect::<Vec<_>>().join(", ")
}

fn call(name: &str, args: Vec<Expr>) -> Expr {
    let text = format!("{}({})", name, texts(&args));
    expr(text, ExprKind::FuncApp { func: Box::new(path(name)), args: punctuated(args) })
}

fn field(target: Expr, name: &str) -> Expr {
    let text = format!("{}.{}", target.text, name);
    expr(text, ExprKind::FieldProjection { target: Box::new(target), name: ident(name) })
}

fn method(target: Expr, name: &str, args: Vec<Expr>) -> Expr {
    let text = format!("{}.{}({})", target.text, name, texts(&args));
    expr(
        text,
        ExprKind::MethodCall {
            target: Box::new(target),
            path_seg: ident(name),
            contract_args_opt: None,
            args: punctuated(args),
        },
    )
}

fn binary(op: BinaryOp, sign: &str, lhs: Expr, rhs: Expr) -> Expr {
    let text = format!("{} {} {}", lhs.text, sign, rhs.text);
    expr(text, ExprKind::Binary { op, lhs: Box::new(lhs), rhs: Box::new(rhs) })
}

fn equal(lhs: Expr, rhs: Expr) -> Expr {
    binary(BinaryOp::Equal, "==", lhs, rhs)
}

fn not(inner: Expr) -> Expr {
    let text = format!("!{}", inner.text);
    expr(text, ExprKind::Unary { op: UnaryOp::Not, expr: Box::new(inner) })
}

fn storage_read(slot: &str) -> Expr {
    method(field(path("storage"), slot), "read", vec![])
}

fn storage_write(slot: &str, value: &str) -> Statement {
    Statement::Expr { expr: method(field(path("storage"), slot), "write", vec![path(value)]) }
}

fn statement(expr: Expr) -> Statement {
    Statement::Expr { expr }
}

fn let_single(name: &str, value: Expr) -> Statement {
    Statement::Let(StatementLet { pattern: Pattern::AmbiguousSingleIdent(ident(name)), expr: value })
}

fn let_tuple(names: &[&str], value: Expr) -> Statement {
    let patterns = names.iter().map(|name| Pattern::AmbiguousSingleIdent(ident(name))).collect();
    Statement::Let(StatementLet { pattern: Pattern::Tuple(punctuated(patterns)), expr: value })
}

fn block(at: usize, statements: Vec<Statement>) -> CodeBlock {
    CodeBlock { span: span(at, at + 1), statements, final_expr_opt: None }
}

fn if_then(condition: Expr, at: usize, then: Vec<Statement>) -> Expr {
    let text = format!("if {} {{ .. }}", condition.text);
    expr(
        text,
        ExprKind::If(IfExpr {
            condition: IfCondition::Expr(Box::new(condition)),
            then_block: block(at, then),
            else_opt: None,
        }),
    )
}

fn revert() -> Statement {
    statement(call("revert", vec![literal("0")]))
}

/// A function whose signature begins at `at` and whose body block begins ten
/// bytes later.
fn function(name: &str, at: usize, statements: Vec<Statement>) -> ItemFn {
    ItemFn {
        fn_signature: FnSignature { span: span(at, at + 3 + name.len()), name: ident(name) },
        body: block(at + 10, statements),
    }
}

fn item(value: ItemKind) -> Item {
    Item { attribute_list: vec![], value }
}

fn module(items: Vec<ItemKind>) -> Module {
    Module { path: PATH.to_string(), items: items.into_iter().map(item).collect() }
}

/// A source of forty lines of twenty bytes each, so that the byte at offset
/// `20 * k` begins line `k + 1`.
fn project() -> Project {
    let source = "0123456789012345678\n".repeat(40);
    Project::new(vec![SourceFile { path: PATH.to_string(), source: source.into_bytes() }])
}

fn findings_of(detector: &str, module: &Module) -> Result<Vec<Finding>, Error> {
    let mut detector = create_detector(detector).unwrap();
    let mut project = project();
    detector.run(module, &mut project)?;
    Ok(project.report.entries)
}

fn unprotected(module: &Module) -> Vec<Finding> {
    findings_of("unprotected_storage_variables", module).unwrap()
}

fn high(line: usize, message: &str) -> Finding {
    Finding {
        path: PATH.to_string(),
        line,
        severity: Severity::High,
        message: message.to_string(),
    }
}

fn require_owner(checked: Expr) -> Statement {
    statement(call("require", vec![equal(checked, storage_read("owner"))]))
}

#[test]
fn test_unprotected_storage_variables() {
    let module = module(vec![
        ItemKind::Use(ItemUse {
            tree: UseTree::Path {
                prefix: ident("std"),
                suffix: Box::new(UseTree::Path {
                    prefix: ident("auth"),
                    suffix: Box::new(UseTree::Rename {
                        name: ident("msg_sender"),
                        alias: ident("sender"),
                    }),
                }),
            },
        }),
        ItemKind::Other,
        ItemKind::Impl(ItemImpl {
            ty: "Contract".to_string(),
            contents: vec![
                ItemImplItem::Other,
                ItemImplItem::Fn(function(
                    "unprotected",
                    40,
                    vec![storage_write("value", "x"), storage_write("owner", "y")],
                )),
                ItemImplItem::Fn(function(
                    "direct_check",
                    100,
                    vec![require_owner(call("msg_sender", vec![])), storage_write("value", "x")],
                )),
                ItemImplItem::Fn(function(
                    "renamed_check",
                    160,
                    vec![require_owner(call("sender", vec![])), storage_write("value", "x")],
                )),
                ItemImplItem::Fn(function(
                    "variable_check",
                    220,
                    vec![
                        let_single("who", call("msg_sender", vec![])),
                        require_owner(path("who")),
                        storage_write("value", "x"),
                    ],
                )),
                ItemImplItem::Fn(function(
                    "revert_check",
                    280,
                    vec![
                        statement(if_then(
                            binary(
                                BinaryOp::NotEqual,
                                "!=",
                                call("msg_sender", vec![]),
                                storage_read("owner"),
                            ),
                            295,
                            vec![revert()],
                        )),
                        storage_write("value", "x"),
                    ],
                )),
                ItemImplItem::Fn(function("reads_only", 340, vec![statement(storage_read("value"))])),
                ItemImplItem::Fn(function(
                    "calls_unprotected",
                    400,
                    vec![statement(call("unprotected", vec![path("a"), path("b")]))],
                )),
            ],
        }),
    ]);
    assert_eq!(
        unprotected(&module),
        vec![
            high(
                3,
                "The `Contract::unprotected` function writes to the `owner`, `value` storage variables without access restriction. Consider checking against `msg_sender()` in order to limit access.",
            ),
            high(
                21,
                "The `Contract::calls_unprotected` function writes to the `owner`, `value` storage variables without access restriction. Consider checking against `msg_sender()` in order to limit access.",
            ),
        ]
    );
}

#[test]
fn test_inline_assembly_usage() {
    let asm_at = |at: usize| {
        statement(Expr {
            span: span(at, at + 3),
            text: "asm".to_string(),
            kind: ExprKind::Asm(AsmBlock { span: span(at, at + 3) }),
        })
    };
    let module = module(vec![
        ItemKind::Fn(function("free", 0, vec![asm_at(20), statement(literal("1")), asm_at(65)])),
        ItemKind::Impl(ItemImpl {
            ty: "Contract".to_string(),
            contents: vec![
                ItemImplItem::Fn(function("clean", 100, vec![statement(literal("1"))])),
                ItemImplItem::Fn(function("method", 200, vec![asm_at(245)])),
            ],
        }),
    ]);
    let medium = |line: usize, message: &str| Finding {
        path: PATH.to_string(),
        line,
        severity: Severity::Medium,
        message: message.to_string(),
    };
    assert_eq!(
        findings_of("inline_assembly_usage", &module),
        Ok(vec![
            medium(2, "The `free` function contains inline assembly usage."),
            medium(4, "The `free` function contains inline assembly usage."),
            medium(13, "The `Contract::method` function contains inline assembly usage."),
        ])
    );
}

#[test]
fn inline_assembly_outside_the_file_is_an_error() {
    let module = module(vec![ItemKind::Fn(function(
        "free",
        0,
        vec![statement(Expr {
            span: span(5000, 5003),
            text: "asm".to_string(),
            kind: ExprKind::Asm(AsmBlock { span: span(5000, 5003) }),
        })],
    ))]);
    assert_eq!(
        findings_of("inline_assembly_usage", &module),
        Err(Error::LineNotFound { path: PATH.to_string(), offset: 5000 })
    );
}

#[test]
fn unchecked_write_is_reported_once_with_its_slot() {
    let module = module(vec![ItemKind::Fn(function("set", 60, vec![storage_write("owner", "x")]))]);
    assert_eq!(
        unprotected(&module),
        vec![high(
            4,
            "The `set` function writes to the `owner` storage variable without access restriction. Consider checking against `msg_sender()` in order to limit access.",
        )]
    );
}

#[test]
fn require_on_msg_sender_removes_the_finding() {
    let module = module(vec![ItemKind::Fn(function(
        "set",
        60,
        vec![require_owner(call("msg_sender", vec![])), storage_write("owner", "x")],
    ))]);
    assert_eq!(unprotected(&module), vec![]);
}

#[test]
fn written_slots_are_listed_ascending_and_once() {
    let module = module(vec![ItemKind::Fn(function(
        "set",
        0,
        vec![
            storage_write("total", "x"),
            storage_write("balance", "x"),
            statement(method(
                field(path("storage"), "owners"),
                "insert",
                vec![path("key"), path("x")],
            )),
            storage_write("total", "y"),
        ],
    ))]);
    assert_eq!(
        unprotected(&module),
        vec![high(
            1,
            "The `set` function writes to the `balance`, `owners`, `total` storage variables without access restriction. Consider checking against `msg_sender()` in order to limit access.",
        )]
    );
}

#[test]
fn function_without_writes_is_never_reported() {
    let module = module(vec![
        ItemKind::Fn(function("reads", 0, vec![statement(storage_read("owner"))])),
        ItemKind::Fn(function("checks", 40, vec![require_owner(call("msg_sender", vec![]))])),
        ItemKind::Fn(function("empty", 80, vec![])),
    ]);
    assert_eq!(unprotected(&module), vec![]);
}

#[test]
fn write_of_more_than_a_name_is_not_a_storage_write() {
    let module = module(vec![ItemKind::Fn(function(
        "set",
        0,
        vec![
            statement(method(field(path("storage"), "owner"), "write", vec![literal("1")])),
            statement(method(field(path("storage"), "owner"), "write", vec![])),
            statement(method(field(path("other"), "owner"), "write", vec![path("x")])),
            statement(method(field(path("storage"), "owner"), "clear", vec![path("x")])),
        ],
    ))]);
    assert_eq!(unprotected(&module), vec![]);
}

#[test]
fn alias_passes_along_a_chain_of_bindings() {
    let module = module(vec![ItemKind::Fn(function(
        "set",
        0,
        vec![
            let_single("a", call("msg_sender", vec![])),
            let_single("b", path("a")),
            let_single("c", path("b")),
            statement(call("require", vec![equal(path("c"), path("owner"))])),
            storage_write("owner", "x"),
        ],
    ))]);
    assert_eq!(unprotected(&module), vec![]);
}

#[test]
fn alias_of_an_unrelated_value_is_no_check() {
    let module = module(vec![ItemKind::Fn(function(
        "set",
        0,
        vec![
            let_single("a", call("other", vec![])),
            let_single("b", path("a")),
            statement(call("require", vec![equal(path("b"), path("owner"))])),
            storage_write("owner", "x"),
        ],
    ))]);
    assert_eq!(unprotected(&module).len(), 1);
}

#[test]
fn alias_does_not_cross_destructuring() {
    let module = module(vec![ItemKind::Fn(function(
        "set",
        0,
        vec![
            let_tuple(&["a", "b"], call("msg_sender", vec![])),
            statement(call("require", vec![equal(path("a"), path("owner"))])),
            statement(call("require", vec![equal(path("b"), path("owner"))])),
            storage_write("owner", "x"),
        ],
    ))]);
    assert_eq!(unprotected(&module).len(), 1);
}

#[test]
fn mutable_binding_is_no_alias() {
    let module = module(vec![ItemKind::Fn(function(
        "set",
        0,
        vec![
            Statement::Let(StatementLet {
                pattern: Pattern::Var { mutable: true, name: ident("a") },
                expr: call("msg_sender", vec![]),
            }),
            statement(call("require", vec![equal(path("a"), path("owner"))])),
            storage_write("owner", "x"),
        ],
    ))]);
    assert_eq!(unprotected(&module).len(), 1);
}

#[test]
fn later_binding_of_a_name_shadows_the_earlier() {
    let module = module(vec![ItemKind::Fn(function(
        "set",
        0,
        vec![
            let_single("a", call("msg_sender", vec![])),
            let_single("a", literal("1")),
            statement(call("require", vec![equal(path("a"), path("owner"))])),
            storage_write("owner", "x"),
        ],
    ))]);
    assert_eq!(unprotected(&module).len(), 1);
}

#[test]
fn inner_block_sees_the_bindings_of_outer_blocks() {
    let guarded = if_then(
        path("flag"),
        30,
        vec![
            statement(call("require", vec![equal(path("who"), path("owner"))])),
            storage_write("owner", "x"),
        ],
    );
    let module = module(vec![ItemKind::Fn(function(
        "set",
        0,
        vec![let_single("who", call("msg_sender", vec![])), statement(guarded)],
    ))]);
    assert_eq!(unprotected(&module), vec![]);
}

#[test]
fn inner_binding_shadows_the_outer_one() {
    let guarded = if_then(
        path("flag"),
        30,
        vec![
            let_single("who", literal("1")),
            statement(call("require", vec![equal(path("who"), path("owner"))])),
            storage_write("owner", "x"),
        ],
    );
    let module = module(vec![ItemKind::Fn(function(
        "set",
        0,
        vec![let_single("who", call("msg_sender", vec![])), statement(guarded)],
    ))]);
    assert_eq!(unprotected(&module).len(), 1);
}

#[test]
fn if_revert_counts_as_require() {
    let guard = |condition: Expr| {
        module(vec![ItemKind::Fn(function(
            "set",
            0,
            vec![statement(if_then(condition, 30, vec![revert()])), storage_write("owner", "x")],
        ))])
    };
    let with_check = guard(binary(
        BinaryOp::NotEqual,
        "!=",
        call("msg_sender", vec![]),
        path("owner"),
    ));
    assert_eq!(unprotected(&with_check), vec![]);
    let without_check = guard(binary(BinaryOp::NotEqual, "!=", path("caller"), path("owner")));
    assert_eq!(unprotected(&without_check).len(), 1);
    let negated = guard(not(equal(path("caller"), path("owner"))));
    assert_eq!(unprotected(&negated).len(), 1);
}

#[test]
fn if_without_revert_is_no_guard() {
    let module = module(vec![ItemKind::Fn(function(
        "set",
        0,
        vec![
            statement(if_then(
                equal(call("msg_sender", vec![]), path("owner")),
                30,
                vec![statement(call("log", vec![literal("1")]))],
            )),
            storage_write("owner", "x"),
        ],
    ))]);
    assert_eq!(unprotected(&module).len(), 1);
}

#[test]
fn condition_is_searched_through_logical_operators_only() {
    let guard = |condition: Expr| {
        module(vec![ItemKind::Fn(function(
            "set",
            0,
            vec![statement(call("require", vec![condition])), storage_write("owner", "x")],
        ))])
    };
    let sender = || call("msg_sender", vec![]);
    let and = binary(
        BinaryOp::LogicalAnd,
        "&&",
        path("open"),
        binary(BinaryOp::LogicalOr, "||", path("x"), equal(path("y"), sender())),
    );
    assert_eq!(unprotected(&guard(and)), vec![]);
    let less = binary(BinaryOp::LessThan, "<", sender(), path("owner"));
    assert_eq!(unprotected(&guard(less)).len(), 1);
    let unwrapped = method(sender(), "unwrap", vec![]);
    assert_eq!(unprotected(&guard(equal(unwrapped, path("owner")))), vec![]);
    let qualified = equal(call("std::auth::msg_sender", vec![]), path("owner"));
    assert_eq!(unprotected(&guard(qualified)), vec![]);
}

#[test]
fn analysis_run_twice_gives_the_same_findings() {
    let module = module(vec![
        ItemKind::Fn(function("caller", 0, vec![statement(call("callee", vec![]))])),
        ItemKind::Fn(function("callee", 40, vec![storage_write("owner", "x")])),
    ]);
    let first = unprotected(&module);
    let second = unprotected(&module);
    assert_eq!(first, second);
    assert_eq!(first.len(), 2);
}

#[test]
fn call_hands_check_and_writes_to_the_caller() {
    let module = module(vec![
        ItemKind::Fn(function(
            "only_owner",
            0,
            vec![require_owner(call("msg_sender", vec![]))],
        )),
        ItemKind::Fn(function("write_a", 40, vec![storage_write("a", "x")])),
        ItemKind::Fn(function(
            "protected",
            80,
            vec![
                statement(call("only_owner", vec![])),
                statement(call("write_a", vec![])),
                storage_write("b", "x"),
            ],
        )),
        ItemKind::Fn(function(
            "open",
            120,
            vec![storage_write("z", "x"), statement(call("write_a", vec![]))],
        )),
    ]);
    assert_eq!(
        unprotected(&module),
        vec![
            high(
                3,
                "The `write_a` function writes to the `a` storage variable without access restriction. Consider checking against `msg_sender()` in order to limit access.",
            ),
            high(
                7,
                "The `open` function writes to the `a`, `z` storage variables without access restriction. Consider checking against `msg_sender()` in order to limit access.",
            ),
        ]
    );
}

#[test]
fn propagation_is_one_sweep_in_source_order() {
    // `first` calls `second`, which calls `third`.  When `first` is visited,
    // `second` has not yet taken over the writes of `third`.
    let module = module(vec![
        ItemKind::Fn(function("first", 0, vec![statement(call("second", vec![]))])),
        ItemKind::Fn(function("second", 40, vec![statement(call("third", vec![]))])),
        ItemKind::Fn(function("third", 80, vec![storage_write("owner", "x")])),
    ]);
    assert_eq!(
        unprotected(&module).iter().map(|finding| finding.line).collect::<Vec<_>>(),
        vec![3, 5]
    );
}

#[test]
fn unresolved_call_neither_helps_nor_harms() {
    let with_call = module(vec![ItemKind::Fn(function(
        "set",
        0,
        vec![statement(call("elsewhere", vec![])), storage_write("owner", "x")],
    ))]);
    let without_call =
        module(vec![ItemKind::Fn(function("set", 0, vec![storage_write("owner", "x")]))]);
    assert_eq!(unprotected(&with_call), unprotected(&without_call));
    let checked = module(vec![ItemKind::Fn(function(
        "set",
        0,
        vec![
            require_owner(call("msg_sender", vec![])),
            statement(call("elsewhere", vec![])),
            storage_write("owner", "x"),
        ],
    ))]);
    assert_eq!(unprotected(&checked), vec![]);
}

#[test]
fn call_resolves_to_the_module_before_the_implementation() {
    let implementation = ItemImpl {
        ty: "C".to_string(),
        contents: vec![
            ItemImplItem::Fn(function("helper", 100, vec![])),
            ItemImplItem::Fn(function("only_here", 140, vec![])),
        ],
    };
    let module = module(vec![
        ItemKind::Other,
        ItemKind::Fn(function("helper", 20, vec![])),
        ItemKind::Fn(function("helper", 60, vec![])),
    ]);
    assert_eq!(find_callee(&module, Some(&implementation), "helper"), Some(span(20, 29)));
    assert_eq!(find_callee(&module, Some(&implementation), "only_here"), Some(span(140, 152)));
    assert_eq!(find_callee(&module, None, "only_here"), None);
    assert_eq!(find_callee(&module, Some(&implementation), "missing"), None);
}

#[test]
fn finding_outside_the_file_is_an_error() {
    let module =
        module(vec![ItemKind::Fn(function("set", 9000, vec![storage_write("owner", "x")]))]);
    assert_eq!(
        findings_of("unprotected_storage_variables", &module),
        Err(Error::LineNotFound { path: PATH.to_string(), offset: 9000 })
    );
}

#[test]
fn finding_for_an_unknown_file_is_an_error() {
    let module = Module {
        path: "src/other.sw".to_string(),
        items: vec![item(ItemKind::Fn(function("set", 0, vec![storage_write("owner", "x")])))],
    };
    assert_eq!(
        findings_of("unprotected_storage_variables", &module),
        Err(Error::FileNotFound { path: "src/other.sw".to_string() })
    );
}

#[test]
fn visitor_keeps_the_state_of_each_module_apart() {
    let first = module(vec![ItemKind::Fn(function("set", 0, vec![storage_write("a", "x")]))]);
    let second = Module {
        path: "src/second.sw".to_string(),
        items: vec![item(ItemKind::Fn(function(
            "set",
            0,
            vec![require_owner(call("msg_sender", vec![])), storage_write("b", "x")],
        )))],
    };
    let mut visitor = UnprotectedStorageVariablesVisitor::default();
    let mut project = Project::new(vec![
        SourceFile { path: PATH.to_string(), source: b"fn set() {}".to_vec() },
        SourceFile { path: "src/second.sw".to_string(), source: b"fn set() {}".to_vec() },
    ]);
    assert_eq!(visit_module_with(&mut visitor, &first, &mut project), Ok(()));
    assert_eq!(visit_module_with(&mut visitor, &second, &mut project), Ok(()));
    assert_eq!(project.report.entries.len(), 1);
    assert_eq!(project.report.entries[0].path, PATH);
    assert_eq!(visitor.module_states.len(), 2);
    assert_eq!(visitor.module_states[0].0, PATH);
    assert_eq!(visitor.module_states[1].0, "src/second.sw");
    let state = |index: usize| &visitor.module_states[index].1.fn_states.entries[0].1;
    assert_eq!(state(0).written_variables, vec!["a"]);
    assert!(!state(0).has_msg_sender_check);
    assert_eq!(state(1).written_variables, vec!["b"]);
    assert!(state(1).has_msg_sender_check);
}

#[test]
fn module_state_starts_with_the_prelude_name() {
    let state = ModuleState::new();
    assert_eq!(state.msg_sender_names, vec!["msg_sender"]);
    assert!(state.fn_states.entries.is_empty());
    assert!(state.expr_is_msg_sender_call(&call("msg_sender", vec![])));
    assert!(state.expr_is_msg_sender_call(&call("std::auth::msg_sender", vec![])));
    assert!(!state.expr_is_msg_sender_call(&call("sender", vec![])));
    assert!(!state.expr_is_msg_sender_call(&path("msg_sender")));
}

#[test]
fn use_of_msg_sender_adds_a_name() {
    let tree = |last: UseTree| UseTree::Path {
        prefix: ident("std"),
        suffix: Box::new(UseTree::Path { prefix: ident("auth"), suffix: Box::new(last) }),
    };
    let mut state = ModuleState::new();
    state.visit_use(&tree(UseTree::Rename { name: ident("msg_sender"), alias: ident("caller") }));
    state.visit_use(&tree(UseTree::Name { name: ident("other") }));
    state.visit_use(&tree(UseTree::Glob));
    state.visit_use(&tree(UseTree::Name { name: ident("msg_sender") }));
    assert_eq!(state.msg_sender_names, vec!["msg_sender", "caller", "msg_sender"]);
    assert!(state.expr_is_msg_sender_call(&call("caller", vec![])));
    assert!(state.expr_contains_msg_sender_call(&equal(path("x"), call("caller", vec![]))));
    assert!(!state.expr_contains_msg_sender_call(&not(call("caller", vec![]))));
}

#[test]
fn block_state_answers_with_the_latest_binding() {
    let block = BlockState {
        var_states: vec![
            VarState { name: "a".to_string(), is_msg_sender: true },
            VarState { name: "b".to_string(), is_msg_sender: true },
            VarState { name: "a".to_string(), is_msg_sender: false },
        ],
    };
    assert_eq!(block.latest_binding("a"), Some(false));
    assert_eq!(block.latest_binding("b"), Some(true));
    assert_eq!(block.latest_binding("c"), None);
    assert_eq!(block.expr_is_msg_sender_var(&path("a")), Some(false));
    assert_eq!(block.expr_is_msg_sender_var(&path("b")), Some(true));
    assert_eq!(block.expr_is_msg_sender_var(&path("c")), None);
    assert_eq!(block.expr_is_msg_sender_var(&call("b", vec![])), None);
}

#[test]
fn fn_state_searches_blocks_from_the_innermost() {
    let mut state = FnState::new();
    let outer = span(0, 1);
    let inner = span(5, 6);
    state.bind(outer, vec![VarState { name: "a".to_string(), is_msg_sender: true }]);
    state.bind(outer, vec![VarState { name: "b".to_string(), is_msg_sender: true }]);
    state.bind(inner, vec![VarState { name: "b".to_string(), is_msg_sender: false }]);
    let blocks = vec![outer, inner];
    assert!(state.expr_is_msg_sender_var(&blocks, &path("a")));
    assert!(!state.expr_is_msg_sender_var(&blocks, &path("b")));
    assert!(state.expr_is_msg_sender_var(&vec![outer], &path("b")));
    assert!(!state.expr_is_msg_sender_var(&vec![inner], &path("a")));
    assert!(!state.expr_is_msg_sender_var(&vec![], &path("a")));
    assert!(!state.expr_is_msg_sender_var(&blocks, &path("c")));
    assert!(!state.expr_is_msg_sender_var(&blocks, &call("a", vec![])));
    assert!(state.expr_contains_msg_sender_var(&blocks, &equal(path("x"), path("a"))));
    assert!(!state.expr_contains_msg_sender_var(&blocks, &not(path("a"))));
}

#[test]
fn fn_state_merge_takes_over_check_and_writes() {
    let mut state = FnState::new();
    state.merge(false, &vec!["m".to_string(), "c".to_string()]);
    assert!(!state.has_msg_sender_check);
    assert_eq!(state.written_variables, vec!["c", "m"]);
    state.merge(true, &vec!["a".to_string(), "m".to_string(), "z".to_string()]);
    assert!(state.has_msg_sender_check);
    assert_eq!(state.written_variables, vec!["a", "c", "m", "z"]);
    state.merge(false, &vec![]);
    assert!(state.has_msg_sender_check);
}

#[test]
fn fn_state_message_names_one_or_many_slots() {
    let mut state = FnState::new();
    assert_eq!(state.unprotected_message("The `f` function"), None);
    state.merge(false, &vec!["owner".to_string()]);
    assert_eq!(
        state.unprotected_message("The `f` function"),
        Some(
            "The `f` function writes to the `owner` storage variable without access restriction. Consider checking against `msg_sender()` in order to limit access."
                .to_string()
        )
    );
    state.merge(false, &vec!["admin".to_string()]);
    assert_eq!(
        state.unprotected_message("The `T::f` function"),
        Some(
            "The `T::f` function writes to the `admin`, `owner` storage variables without access restriction. Consider checking against `msg_sender()` in order to limit access."
                .to_string()
        )
    );
    state.merge(true, &vec![]);
    assert_eq!(state.unprotected_message("The `f` function"), None);
}

#[test]
fn guard_conditions_of_require_and_if_revert() {
    let condition = || equal(path("a"), path("b"));
    let require = call("require", vec![condition(), path("c")]);
    let texts = |expr: &Expr| {
        get_guard_conditions(expr).iter().map(|c| c.text.clone()).collect::<Vec<_>>()
    };
    assert_eq!(texts(&require), vec!["a == b", "c"]);
    assert_eq!(texts(&if_then(condition(), 0, vec![revert()])), vec!["a == b"]);
    assert!(texts(&if_then(condition(), 0, vec![])).is_empty());
    assert!(texts(&call("assert", vec![condition()])).is_empty());
    assert!(texts(&call("require", vec![])).is_empty());
    let if_let = Expr {
        span: span(0, 1),
        text: "if let".to_string(),
        kind: ExprKind::If(IfExpr {
            condition: IfCondition::Let {
                lhs: Box::new(Pattern::Wildcard),
                rhs: Box::new(condition()),
            },
            then_block: block(0, vec![revert()]),
            else_opt: Some(ElseBranch::Else(block(5, vec![]))),
        }),
    };
    assert!(texts(&if_let).is_empty());
}

#[test]
fn detectors_are_found_by_name() {
    assert_eq!(detector_names(), vec!["inline_assembly_usage", "unprotected_storage_variables"]);
    for name in detector_names() {
        assert_eq!(create_detector(name).unwrap().name(), name);
    }
    assert!(matches!(
        create_detector("inline_assembly_usage"),
        Some(Detector::InlineAssemblyUsage(InlineAssemblyUsageVisitor))
    ));
    assert!(create_detector("unknown").is_none());
    assert!(create_detector("").is_none());
}

#[test]
fn walk_visits_a_module_depth_first() {
    let module = module(vec![
        ItemKind::Use(ItemUse { tree: UseTree::Glob }),
        ItemKind::Impl(ItemImpl {
            ty: "C".to_string(),
            contents: vec![ItemImplItem::Fn(function(
                "f",
                0,
                vec![let_single("a", call("g", vec![path("x")])), statement(path("a"))],
            ))],
        }),
    ]);
    let steps: Vec<String> = walk_module(&module)
        .iter()
        .map(|node| match node {
            Node::Use(_) => "use".to_string(),
            Node::EnterImpl(item_impl) => format!("impl {}", item_impl.ty),
            Node::LeaveImpl(_) => "end impl".to_string(),
            Node::EnterFn(item_fn) => format!("fn {}", item_fn.fn_signature.name.name),
            Node::LeaveFn(_) => "end fn".to_string(),
            Node::EnterBlock(span) => format!("block {}", span.start),
            Node::LeaveBlock(span) => format!("end block {}", span.start),
            Node::Statement(_) => "statement".to_string(),
            Node::StatementLet(_) => "let".to_string(),
            Node::Expr(expr) => format!("expr {}", expr.text),
            Node::AsmBlock(_) => "assembly".to_string(),
        })
        .collect();
    assert_eq!(
        steps,
        vec![
            "use",
            "impl C",
            "fn f",
            "block 10",
            "statement",
            "let",
            "expr g(x)",
            "expr g",
            "expr x",
            "statement",
            "expr a",
            "end block 10",
            "end fn",
            "end impl",
        ]
    );
}
