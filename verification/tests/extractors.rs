use sway_analyzer::ast::{
    Assignable, AssignableKind, Attribute, AttributeArg, AttributeDecl, BinaryOp, CodeBlock,
    ElseBranch, Expr, ExprArrayDescriptor, ExprKind, ExprStructField, ExprTupleDescriptor, Ident,
    IfCondition, IfExpr, MatchBranch, MatchBranchKind, PathExpr, Pattern, PatternStructField,
    Punctuated, Span, Statement, StatementLet, UnaryOp, UseTree,
};
use sway_analyzer::utils::{
    block_has_revert, check_attribute_decls, find_storage_access_in_expr, fold_assignable_idents,
    fold_expr_ident_spans, fold_expr_idents, fold_path_idents, fold_pattern_idents,
    fold_punctuated, fold_tuple, get_item_location, get_require_args,
    statement_to_reassignment_idents, statement_to_storage_read_binding_idents,
    statement_to_storage_write_idents, statement_to_variable_binding_ident, use_tree_to_name,
};

fn span(start: usize, end: usize) -> Span {
    Span { start, end }
}

fn ident(name: &str) -> Ident {
    Ident { name: name.to_string(), span: span(0, name.len()) }
}

fn ident_at(name: &str, start: usize) -> Ident {
    Ident { name: name.to_string(), span: span(start, start + name.len()) }
}

fn punctuated<T>(mut values: Vec<T>) -> Punctuated<T, Span> {
    let last = values.pop();
    Punctuated {
        value_separator_pairs: values.into_iter().map(|value| (value, span(0, 1))).collect(),
        final_value_opt: last.map(Box::new),
    }
}

/// The same values, written with a separator after the last of them.
fn trailing<T>(values: Vec<T>) -> Punctuated<T, Span> {
    Punctuated {
        value_separator_pairs: values.into_iter().map(|value| (value, span(0, 1))).collect(),
        final_value_opt: None,
    }
}

fn expr_at(start: usize, text: &str, kind: ExprKind) -> Expr {
    Expr { span: span(start, start + text.len()), text: text.to_string(), kind }
}

fn expr(text: String, kind: ExprKind) -> Expr {
    Expr { span: span(0, text.len()), text, kind }
}

fn path(name: &str) -> Expr {
    path_at(name, 0)
}

fn path_at(name: &str, start: usize) -> Expr {
    let mut names = name.split("::");
    let prefix = ident(names.next().unwrap());
    let suffix = names.map(ident).collect();
    expr_at(start, name, ExprKind::Path(PathExpr { prefix, suffix }))
}

fn literal(text: &str) -> Expr {
    expr(text.to_string(), ExprKind::Literal)
}

fn texts(exprs: &[Expr]) -> String {
    exprs.iter().map(|e| e.text.clone()).collect::<Vec<_>>().join(", ")
}

fn call(name: &str, args: Vec<Expr>) -> Expr {
    let text = format!("{}({})", name, texts(&args));
    expr(text, ExprKind::FuncApp { func: Box::new(path(name)), args: punctuated(args) })
}

fn field(target: Expr, name: &str) -> Expr {
    let text = format!("{}.{}", target.text, name);
    expr(text, ExprKind::FieldProjection { target: Box::new(target), name: ident(name) })
}

fn method(target: Expr, name: &str, args: Vec<Expr>) -> Expr {
    let text = format!("{}.{}({})", target.text, name, texts(&args));
    expr(
        text,
        ExprKind::MethodCall {
            target: Box::new(target),
            path_seg: ident(name),
            contract_args_opt: None,
            args: punctuated(args),
        },
    )
}

fn index(target: Expr, arg: Expr) -> Expr {
    let text = format!("{}[{}]", target.text, arg.text);
    expr(text, ExprKind::Index { target: Box::new(target), arg: Box::new(arg) })
}

fn binary(op: BinaryOp, lhs: Expr, rhs: Expr) -> Expr {
    let text = format!("{} ? {}", lhs.text, rhs.text);
    expr(text, ExprKind::Binary { op, lhs: Box::new(lhs), rhs: Box::new(rhs) })
}

fn unary(op: UnaryOp, inner: Expr) -> Expr {
    let text = format!("?{}", inner.text);
    expr(text, ExprKind::Unary { op, expr: Box::new(inner) })
}

fn parens(inner: Expr) -> Expr {
    let text = format!("({})", inner.text);
    expr(text, ExprKind::Parens(Box::new(inner)))
}

fn storage_read(slot: &str) -> Expr {
    method(field(path("storage"), slot), "read", vec![])
}

fn block(statements: Vec<Statement>, final_expr: Option<Expr>) -> CodeBlock {
    CodeBlock { span: span(0, 1), statements, final_expr_opt: final_expr.map(Box::new) }
}

fn statement(expr: Expr) -> Statement {
    Statement::Expr { expr }
}

fn names(idents: &[Ident]) -> Vec<String> {
    idents.iter().map(|ident| ident.name.clone()).collect()
}

fn found(expr: &Expr) -> Option<String> {
    find_storage_access_in_expr(expr).map(|access| access.text.clone())
}

#[test]
fn fold_punctuated_drops_the_separators() {
    let list = punctuated(vec![1, 2, 3]);
    assert_eq!(list.value_separator_pairs.len(), 2);
    assert_eq!(fold_punctuated(&list), vec![&1, &2, &3]);
    assert_eq!(fold_punctuated(&trailing(vec![1, 2, 3])), vec![&1, &2, &3]);
    assert_eq!(fold_punctuated(&punctuated(vec![7])), vec![&7]);
    assert!(fold_punctuated(&punctuated(Vec::<u8>::new())).is_empty());
}

#[test]
fn fold_tuple_gives_head_and_tail() {
    assert!(fold_tuple(&ExprTupleDescriptor::Nil).is_empty());
    let tuple = ExprTupleDescriptor::Cons {
        head: Box::new(path("a")),
        tail: punctuated(vec![path("b"), path("c")]),
    };
    let texts: Vec<&str> = fold_tuple(&tuple).iter().map(|e| e.text.as_str()).collect();
    assert_eq!(texts, vec!["a", "b", "c"]);
    let single =
        ExprTupleDescriptor::Cons { head: Box::new(path("a")), tail: punctuated(vec![]) };
    assert_eq!(fold_tuple(&single).len(), 1);
}

#[test]
fn fold_path_idents_gives_prefix_and_suffix() {
    let path = PathExpr { prefix: ident("std"), suffix: vec![ident("auth"), ident("msg_sender")] };
    assert_eq!(names(&fold_path_idents(&path)), vec!["std", "auth", "msg_sender"]);
    let single = PathExpr { prefix: ident_at("x", 9), suffix: vec![] };
    let idents = fold_path_idents(&single);
    assert_eq!(names(&idents), vec!["x"]);
    assert_eq!(idents[0].span, span(9, 10));
}

#[test]
fn fold_expr_idents_follows_the_access_chain() {
    let chain = method(index(field(path("storage"), "map"), path("key")), "read", vec![path("z")]);
    assert_eq!(names(&fold_expr_idents(&chain)), vec!["storage", "map", "read"]);
    let tuple_field = expr(
        "a.b.0".to_string(),
        ExprKind::TupleFieldProjection { target: Box::new(field(path("a"), "b")) },
    );
    assert_eq!(names(&fold_expr_idents(&tuple_field)), vec!["a", "b"]);
    assert_eq!(names(&fold_expr_idents(&path("a::b"))), vec!["a", "b"]);
    assert!(fold_expr_idents(&call("f", vec![path("a")])).is_empty());
    assert!(fold_expr_idents(&parens(path("a"))).is_empty());
    assert!(fold_expr_idents(&literal("1")).is_empty());
}

#[test]
fn fold_assignable_idents_follows_the_target() {
    let var = |name: &str| Assignable { span: span(0, 1), kind: AssignableKind::Var(ident(name)) };
    let boxed = |kind: AssignableKind| Box::new(Assignable { span: span(0, 1), kind });
    assert_eq!(names(&fold_assignable_idents(&var("a"))), vec!["a"]);
    let target = Assignable {
        span: span(0, 9),
        kind: AssignableKind::FieldProjection {
            target: boxed(AssignableKind::TupleFieldProjection {
                target: boxed(AssignableKind::Index {
                    target: boxed(AssignableKind::FieldProjection {
                        target: Box::new(var("a")),
                        name: ident("b"),
                    }),
                    arg: Box::new(path("i")),
                }),
            }),
            name: ident("c"),
        },
    };
    assert_eq!(names(&fold_assignable_idents(&target)), vec!["a", "b", "c"]);
}

#[test]
fn fold_pattern_idents_collects_bound_names() {
    let single = |name: &str| Pattern::AmbiguousSingleIdent(ident(name));
    assert_eq!(names(&fold_pattern_idents(&single("a"))), vec!["a"]);
    assert_eq!(
        names(&fold_pattern_idents(&Pattern::Var { mutable: true, name: ident("m") })),
        vec!["m"]
    );
    assert!(fold_pattern_idents(&Pattern::Wildcard).is_empty());
    assert!(fold_pattern_idents(&Pattern::Literal).is_empty());
    assert!(fold_pattern_idents(&Pattern::Error).is_empty());
    let constant =
        Pattern::Constant(PathExpr { prefix: ident("consts"), suffix: vec![ident("MAX")] });
    assert_eq!(names(&fold_pattern_idents(&constant)), vec!["consts", "MAX"]);
    let pattern = Pattern::Tuple(punctuated(vec![
        Pattern::Or { lhs: Box::new(single("a")), rhs: Box::new(single("b")) },
        Pattern::Constructor {
            path: PathExpr { prefix: ident("Some"), suffix: vec![] },
            args: trailing(vec![single("c"), Pattern::Wildcard]),
        },
        Pattern::Struct {
            path: PathExpr { prefix: ident("Point"), suffix: vec![] },
            fields: punctuated(vec![
                PatternStructField::Field { field_name: ident("x"), pattern_opt: None },
                PatternStructField::Field {
                    field_name: ident("y"),
                    pattern_opt: Some(Box::new(single("d"))),
                },
                PatternStructField::Rest,
            ]),
        },
    ]));
    assert_eq!(names(&fold_pattern_idents(&pattern)), vec!["a", "b", "c", "x", "d"]);
}

#[test]
fn fold_expr_ident_spans_collects_name_ranges_in_order() {
    let call = expr_at(
        0,
        "f(a, b.c)",
        ExprKind::FuncApp {
            func: Box::new(path_at("f", 0)),
            args: punctuated(vec![
                path_at("a", 2),
                expr_at(
                    5,
                    "b.c",
                    ExprKind::FieldProjection {
                        target: Box::new(path_at("b", 5)),
                        name: ident_at("c", 7),
                    },
                ),
            ]),
        },
    );
    assert_eq!(
        fold_expr_ident_spans(&call),
        vec![span(0, 1), span(2, 3), span(5, 8), span(5, 6)]
    );
}

#[test]
fn fold_expr_ident_spans_of_each_form() {
    let a = || path_at("a", 10);
    let b = || path_at("b", 20);
    let both = vec![span(10, 11), span(20, 21)];
    assert_eq!(fold_expr_ident_spans(&a()), vec![span(10, 11)]);
    assert_eq!(fold_expr_ident_spans(&binary(BinaryOp::Add, a(), b())), both);
    assert_eq!(fold_expr_ident_spans(&binary(BinaryOp::LogicalOr, a(), b())), both);
    assert_eq!(fold_expr_ident_spans(&unary(UnaryOp::Not, a())), vec![span(10, 11)]);
    assert_eq!(fold_expr_ident_spans(&unary(UnaryOp::Deref, a())), vec![span(10, 11)]);
    assert_eq!(fold_expr_ident_spans(&parens(a())), vec![span(10, 11)]);
    assert_eq!(fold_expr_ident_spans(&index(a(), b())), both);
    assert_eq!(fold_expr_ident_spans(&method(a(), "m", vec![b()])), both);
    let abi_cast = expr("abi".to_string(), ExprKind::AbiCast { address: Box::new(a()) });
    assert_eq!(fold_expr_ident_spans(&abi_cast), vec![span(10, 11)]);
    let tuple = expr(
        "(a, b)".to_string(),
        ExprKind::Tuple(ExprTupleDescriptor::Cons {
            head: Box::new(a()),
            tail: punctuated(vec![b()]),
        }),
    );
    assert_eq!(fold_expr_ident_spans(&tuple), both);
    let unit = expr("()".to_string(), ExprKind::Tuple(ExprTupleDescriptor::Nil));
    assert!(fold_expr_ident_spans(&unit).is_empty());
    let sequence = expr(
        "[a, b]".to_string(),
        ExprKind::Array(ExprArrayDescriptor::Sequence(punctuated(vec![a(), b()]))),
    );
    assert_eq!(fold_expr_ident_spans(&sequence), both);
    let repeat = expr(
        "[a; b]".to_string(),
        ExprKind::Array(ExprArrayDescriptor::Repeat {
            value: Box::new(a()),
            length: Box::new(b()),
        }),
    );
    assert_eq!(fold_expr_ident_spans(&repeat), both);
    let returned = expr("return a".to_string(), ExprKind::Return { expr_opt: Some(Box::new(a())) });
    assert_eq!(fold_expr_ident_spans(&returned), vec![span(10, 11)]);
    let bare_return = expr("return".to_string(), ExprKind::Return { expr_opt: None });
    assert!(fold_expr_ident_spans(&bare_return).is_empty());
    let tuple_field = expr_at(
        10,
        "a.0",
        ExprKind::TupleFieldProjection { target: Box::new(a()) },
    );
    assert_eq!(fold_expr_ident_spans(&tuple_field), vec![span(10, 13), span(10, 11)]);
    let structure = expr(
        "S { x, y: b }".to_string(),
        ExprKind::Struct {
            path: PathExpr { prefix: ident("S"), suffix: vec![] },
            fields: punctuated(vec![
                ExprStructField { field_name: ident_at("x", 4), expr_opt: None },
                ExprStructField { field_name: ident_at("y", 7), expr_opt: Some(Box::new(b())) },
            ]),
        },
    );
    assert_eq!(fold_expr_ident_spans(&structure), vec![span(4, 5), span(20, 21)]);
    let reassignment = expr(
        "t.f = b".to_string(),
        ExprKind::Reassignment {
            assignable: Assignable { span: span(30, 33), kind: AssignableKind::Var(ident("t")) },
            expr: Box::new(b()),
        },
    );
    assert_eq!(fold_expr_ident_spans(&reassignment), vec![span(30, 33), span(20, 21)]);
    assert!(fold_expr_ident_spans(&literal("1")).is_empty());
    let in_block = expr("{ a }".to_string(), ExprKind::Block(block(vec![], Some(a()))));
    assert!(fold_expr_ident_spans(&in_block).is_empty());
}

#[test]
fn find_storage_access_finds_the_expression_itself() {
    let access = storage_read("owner");
    assert_eq!(found(&access), Some("storage.owner.read()".to_string()));
    assert_eq!(found(&field(path("storage"), "owner")), None);
    assert_eq!(found(&method(path("storage"), "read", vec![])), None);
    assert_eq!(found(&method(field(path("other"), "owner"), "read", vec![])), None);
    assert_eq!(found(&path("storage")), None);
}

#[test]
fn find_storage_access_takes_the_first_from_the_left() {
    let both = binary(BinaryOp::Add, storage_read("a"), storage_read("b"));
    assert_eq!(found(&both), Some("storage.a.read()".to_string()));
    let right = binary(BinaryOp::LessThan, path("x"), storage_read("b"));
    assert_eq!(found(&right), Some("storage.b.read()".to_string()));
    let in_args = call("f", vec![path("x"), parens(storage_read("c")), storage_read("d")]);
    assert_eq!(found(&in_args), Some("storage.c.read()".to_string()));
    let outer = method(storage_read("a"), "unwrap", vec![storage_read("b")]);
    assert_eq!(found(&outer), Some("storage.a.read().unwrap(storage.b.read())".to_string()));
    let in_method_args = method(path("x"), "push", vec![path("y"), storage_read("e")]);
    assert_eq!(found(&in_method_args), Some("storage.e.read()".to_string()));
}

#[test]
fn find_storage_access_searches_blocks_and_branches() {
    let let_statement = Statement::Let(StatementLet {
        pattern: Pattern::Wildcard,
        expr: storage_read("in_let"),
    });
    let in_block = expr(
        "{ .. }".to_string(),
        ExprKind::Block(block(
            vec![Statement::Item, Statement::Error, let_statement],
            Some(storage_read("last")),
        )),
    );
    assert_eq!(found(&in_block), Some("storage.in_let.read()".to_string()));
    let in_final =
        expr("{ .. }".to_string(), ExprKind::Block(block(vec![], Some(storage_read("last")))));
    assert_eq!(found(&in_final), Some("storage.last.read()".to_string()));
    let if_else = |condition: Expr, then: Option<Expr>, otherwise: Option<Expr>| {
        expr(
            "if".to_string(),
            ExprKind::If(IfExpr {
                condition: IfCondition::Expr(Box::new(condition)),
                then_block: block(vec![], then),
                else_opt: otherwise.map(|e| ElseBranch::Else(block(vec![statement(e)], None))),
            }),
        )
    };
    assert_eq!(
        found(&if_else(path("c"), Some(storage_read("then")), Some(storage_read("else")))),
        Some("storage.then.read()".to_string())
    );
    assert_eq!(
        found(&if_else(path("c"), None, Some(storage_read("else")))),
        Some("storage.else.read()".to_string())
    );
    assert_eq!(
        found(&if_else(storage_read("cond"), Some(storage_read("then")), None)),
        Some("storage.cond.read()".to_string())
    );
    let else_if = expr(
        "if".to_string(),
        ExprKind::If(IfExpr {
            condition: IfCondition::Let {
                lhs: Box::new(Pattern::Wildcard),
                rhs: Box::new(path("x")),
            },
            then_block: block(vec![], None),
            else_opt: Some(ElseBranch::ElseIf(Box::new(IfExpr {
                condition: IfCondition::Expr(Box::new(storage_read("nested"))),
                then_block: block(vec![], None),
                else_opt: None,
            }))),
        }),
    );
    assert_eq!(found(&else_if), Some("storage.nested.read()".to_string()));
    let matched = expr(
        "match".to_string(),
        ExprKind::Match {
            value: Box::new(path("x")),
            branches: vec![
                MatchBranch {
                    pattern: Pattern::Wildcard,
                    kind: MatchBranchKind::Expr { expr: literal("1") },
                },
                MatchBranch {
                    pattern: Pattern::Wildcard,
                    kind: MatchBranchKind::Block { block: block(vec![], Some(storage_read("arm"))) },
                },
            ],
        },
    );
    assert_eq!(found(&matched), Some("storage.arm.read()".to_string()));
    let looped = expr(
        "while".to_string(),
        ExprKind::While {
            condition: Box::new(path("c")),
            block: block(vec![statement(storage_read("body"))], None),
        },
    );
    assert_eq!(found(&looped), Some("storage.body.read()".to_string()));
}

#[test]
fn find_storage_access_skips_what_is_not_searched() {
    let reassignment = expr(
        "x = 1".to_string(),
        ExprKind::Reassignment {
            assignable: Assignable {
                span: span(0, 1),
                kind: AssignableKind::Index {
                    target: Box::new(Assignable {
                        span: span(0, 1),
                        kind: AssignableKind::Var(ident("x")),
                    }),
                    arg: Box::new(storage_read("index")),
                },
            },
            expr: Box::new(literal("1")),
        },
    );
    assert_eq!(found(&reassignment), None);
    let shorthand = expr(
        "S { x }".to_string(),
        ExprKind::Struct {
            path: PathExpr { prefix: ident("storage"), suffix: vec![ident("a"), ident("b")] },
            fields: punctuated(vec![ExprStructField { field_name: ident("x"), expr_opt: None }]),
        },
    );
    assert_eq!(found(&shorthand), None);
    for kind in [ExprKind::Error, ExprKind::Literal, ExprKind::Break, ExprKind::Continue] {
        assert_eq!(found(&expr("x".to_string(), kind)), None);
    }
    let with_contract_args = expr(
        "x.f{gas: storage.g.read()}()".to_string(),
        ExprKind::MethodCall {
            target: Box::new(path("x")),
            path_seg: ident("f"),
            contract_args_opt: Some(punctuated(vec![
                ExprStructField { field_name: ident("coins"), expr_opt: None },
                ExprStructField {
                    field_name: ident("gas"),
                    expr_opt: Some(Box::new(storage_read("g"))),
                },
            ])),
            args: punctuated(vec![storage_read("arg")]),
        },
    );
    assert_eq!(found(&with_contract_args), Some("storage.g.read()".to_string()));
}

#[test]
fn check_attribute_decls_matches_name_and_arguments() {
    let attribute = |name: &str, args: Option<Vec<&str>>| Attribute {
        name: ident(name),
        args: args.map(|args| {
            punctuated(args.into_iter().map(|arg| AttributeArg { name: ident(arg) }).collect())
        }),
    };
    let decls = vec![
        AttributeDecl { attribute: punctuated(vec![attribute("doc", None)]) },
        AttributeDecl {
            attribute: punctuated(vec![
                attribute("inline", Some(vec!["never"])),
                attribute("storage", Some(vec!["read", "write"])),
            ]),
        },
        AttributeDecl { attribute: punctuated(vec![]) },
    ];
    assert!(check_attribute_decls(&decls, "storage", &[]));
    assert!(check_attribute_decls(&decls, "storage", &["read"]));
    assert!(check_attribute_decls(&decls, "storage", &["write", "read"]));
    assert!(!check_attribute_decls(&decls, "storage", &["read", "clear"]));
    assert!(!check_attribute_decls(&decls, "payable", &[]));
    assert!(!check_attribute_decls(&decls, "inline", &["always"]));
    assert!(check_attribute_decls(&decls, "doc", &[]));
    assert!(check_attribute_decls(&decls, "doc", &["anything"]));
    assert!(!check_attribute_decls(&[], "doc", &[]));
    let empty_args = vec![AttributeDecl { attribute: punctuated(vec![attribute("test", Some(vec![]))]) }];
    assert!(check_attribute_decls(&empty_args, "test", &[]));
    assert!(!check_attribute_decls(&empty_args, "test", &["should_revert"]));
}

#[test]
fn statement_to_variable_binding_ident_wants_a_variable_pattern() {
    let bind = |pattern: Pattern| Statement::Let(StatementLet { pattern, expr: literal("1") });
    let found = statement_to_variable_binding_ident(&bind(Pattern::Var {
        mutable: false,
        name: ident_at("x", 4),
    }));
    assert_eq!(found.as_ref().map(|i| i.name.as_str()), Some("x"));
    assert_eq!(found.map(|i| i.span), Some(span(4, 5)));
    assert!(statement_to_variable_binding_ident(&bind(Pattern::AmbiguousSingleIdent(ident("x"))))
        .is_none());
    assert!(statement_to_variable_binding_ident(&bind(Pattern::Wildcard)).is_none());
    assert!(statement_to_variable_binding_ident(&statement(path("x"))).is_none());
    assert!(statement_to_variable_binding_ident(&Statement::Item).is_none());
}

#[test]
fn statement_to_storage_read_binding_idents_wants_a_mutable_read() {
    let bind = |mutable: bool, value: Expr| {
        Statement::Let(StatementLet {
            pattern: Pattern::Var { mutable, name: ident("local") },
            expr: value,
        })
    };
    let pair = |statement: &Statement| {
        statement_to_storage_read_binding_idents(statement).map(|(slot, name)| (slot.name, name.name))
    };
    assert_eq!(
        pair(&bind(true, storage_read("owner"))),
        Some(("owner".to_string(), "local".to_string()))
    );
    let nested = method(field(field(path("storage"), "a"), "b"), "read", vec![]);
    assert_eq!(pair(&bind(true, nested)), Some(("a".to_string(), "local".to_string())));
    assert_eq!(pair(&bind(false, storage_read("owner"))), None);
    assert_eq!(pair(&bind(true, method(field(path("storage"), "owner"), "get", vec![]))), None);
    assert_eq!(pair(&bind(true, method(field(path("other"), "owner"), "read", vec![]))), None);
    assert_eq!(pair(&bind(true, method(path("storage"), "read", vec![]))), None);
    assert_eq!(pair(&statement(storage_read("owner"))), None);
    let single = Statement::Let(StatementLet {
        pattern: Pattern::AmbiguousSingleIdent(ident("local")),
        expr: storage_read("owner"),
    });
    assert_eq!(pair(&single), None);
}

#[test]
fn statement_to_reassignment_idents_wants_an_assignment() {
    let assignment = statement(expr(
        "a.b = 1".to_string(),
        ExprKind::Reassignment {
            assignable: Assignable {
                span: span(0, 3),
                kind: AssignableKind::FieldProjection {
                    target: Box::new(Assignable {
                        span: span(0, 1),
                        kind: AssignableKind::Var(ident("a")),
                    }),
                    name: ident("b"),
                },
            },
            expr: Box::new(literal("1")),
        },
    ));
    assert_eq!(
        statement_to_reassignment_idents(&assignment).map(|idents| names(&idents)),
        Some(vec!["a".to_string(), "b".to_string()])
    );
    assert!(statement_to_reassignment_idents(&statement(path("a"))).is_none());
    assert!(statement_to_reassignment_idents(&Statement::Error).is_none());
}

#[test]
fn statement_to_storage_write_idents_wants_a_written_name() {
    let write = |target: Expr, name: &str, args: Vec<Expr>| statement(method(target, name, args));
    let pair = |statement: &Statement| {
        statement_to_storage_write_idents(statement).map(|(slot, name)| (slot.name, name.name))
    };
    let slot = || field(path("storage"), "owner");
    assert_eq!(
        pair(&write(slot(), "write", vec![path("x")])),
        Some(("owner".to_string(), "x".to_string()))
    );
    assert_eq!(
        pair(&write(field(path("storage"), "map"), "insert", vec![path("key"), path("value")])),
        Some(("map".to_string(), "value".to_string()))
    );
    assert_eq!(pair(&write(slot(), "write", vec![])), None);
    assert_eq!(pair(&write(slot(), "write", vec![literal("1")])), None);
    assert_eq!(pair(&write(slot(), "write", vec![path("a::b")])), None);
    assert_eq!(pair(&write(slot(), "write", vec![field(path("a"), "b")])), None);
    assert_eq!(pair(&write(slot(), "read", vec![path("x")])), None);
    assert_eq!(pair(&write(path("storage"), "write", vec![path("x")])), None);
    assert_eq!(pair(&write(field(path("local"), "owner"), "write", vec![path("x")])), None);
    assert_eq!(pair(&statement(call("write", vec![path("x")]))), None);
    let bound = Statement::Let(StatementLet {
        pattern: Pattern::Wildcard,
        expr: method(slot(), "write", vec![path("x")]),
    });
    assert_eq!(pair(&bound), None);
}

#[test]
fn get_require_args_gives_the_arguments_of_require() {
    let args = |expr: &Expr| {
        get_require_args(expr).map(|args| args.iter().map(|a| a.text.clone()).collect::<Vec<_>>())
    };
    assert_eq!(
        args(&call("require", vec![path("a"), literal("1")])),
        Some(vec!["a".to_string(), "1".to_string()])
    );
    assert_eq!(args(&call("require", vec![])), Some(vec![]));
    assert_eq!(args(&call("assert", vec![path("a")])), None);
    assert_eq!(args(&method(path("x"), "require", vec![path("a")])), None);
    assert_eq!(args(&path("require")), None);
}

#[test]
fn block_has_revert_looks_at_the_statements_of_the_block() {
    let revert = || call("revert", vec![literal("0")]);
    assert!(block_has_revert(&block(vec![statement(path("x")), statement(revert())], None)));
    assert!(block_has_revert(&block(vec![], Some(revert()))));
    assert!(!block_has_revert(&block(vec![], None)));
    assert!(!block_has_revert(&block(vec![statement(call("log", vec![]))], Some(path("x")))));
    let bound = Statement::Let(StatementLet { pattern: Pattern::Wildcard, expr: revert() });
    assert!(!block_has_revert(&block(vec![bound], None)));
    let nested = expr(
        "{ revert(0) }".to_string(),
        ExprKind::Block(block(vec![statement(revert())], None)),
    );
    assert!(!block_has_revert(&block(vec![statement(nested)], None)));
}

#[test]
fn use_tree_to_name_follows_the_path() {
    let path = ["std", "auth", "msg_sender"];
    let under = |last: UseTree| UseTree::Path {
        prefix: ident("std"),
        suffix: Box::new(UseTree::Path { prefix: ident("auth"), suffix: Box::new(last) }),
    };
    let name = |name: &str| UseTree::Name { name: ident(name) };
    let rename =
        |name: &str, alias: &str| UseTree::Rename { name: ident(name), alias: ident(alias) };
    assert_eq!(use_tree_to_name(&under(name("msg_sender")), &path, 0), Some("msg_sender".to_string()));
    assert_eq!(
        use_tree_to_name(&under(rename("msg_sender", "caller")), &path, 0),
        Some("caller".to_string())
    );
    assert_eq!(use_tree_to_name(&under(name("other")), &path, 0), None);
    assert_eq!(use_tree_to_name(&under(UseTree::Glob), &path, 0), None);
    assert_eq!(use_tree_to_name(&under(UseTree::Error), &path, 0), None);
    assert_eq!(use_tree_to_name(&name("msg_sender"), &path, 0), None);
    assert_eq!(use_tree_to_name(&name("msg_sender"), &path, 2), Some("msg_sender".to_string()));
    assert_eq!(use_tree_to_name(&name("msg_sender"), &path, 3), None);
    let group = under(UseTree::Group {
        imports: punctuated(vec![
            name("caller_address"),
            rename("msg_sender", "first"),
            rename("msg_sender", "second"),
        ]),
    });
    assert_eq!(use_tree_to_name(&group, &path, 0), Some("first".to_string()));
    let elsewhere = UseTree::Path {
        prefix: ident("std"),
        suffix: Box::new(UseTree::Path {
            prefix: ident("token"),
            suffix: Box::new(name("msg_sender")),
        }),
    };
    assert_eq!(use_tree_to_name(&elsewhere, &path, 0), None);
    let too_deep = under(UseTree::Path {
        prefix: ident("msg_sender"),
        suffix: Box::new(name("inner")),
    });
    assert_eq!(use_tree_to_name(&too_deep, &path, 0), None);
}

#[test]
fn get_item_location_names_the_function() {
    assert_eq!(get_item_location(None, &"set".to_string()), "The `set` function");
    assert_eq!(
        get_item_location(Some(&"Contract".to_string()), &"set".to_string()),
        "The `Contract::set` function"
    );
}
