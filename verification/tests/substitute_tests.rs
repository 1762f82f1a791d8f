use fluo::ast::{Literal, LiteralType, NameID, Namespace};
use fluo::helpers::Pos;
use fluo::logger::{ErrorAnnotation, ErrorDisplayType, ErrorType, ErrorValue};
use fluo::typecheck::annotation::{
    AnnotationType, Prim, TypedAssign, TypedBinder, TypedBlock, TypedExpr, TypedExprEnum,
    TypedFunction, TypedFunctionCall, TypedIs, TypedLiteral, TypedRefID, TypedReturn, TypedStmt,
    TypedStmtEnum, TypedTuple, TypedYield,
};
use fluo::typecheck::substitute::{bad_literal, cannot_infer_err, substitute};
use fluo::typecheck::substitutions::Substitutions;

fn at(n: usize) -> Pos {
    Pos::new(n, n + 1, 0)
}

fn named(name: &str) -> AnnotationType {
    AnnotationType::Type(name.to_string(), at(100))
}

fn infer(id: usize) -> AnnotationType {
    AnnotationType::Infer(id, at(200 + id))
}

fn path(name: &str) -> Namespace {
    Namespace::new(vec![NameID::new(name.to_string(), at(0))], at(0))
}

fn solved(entries: Vec<(usize, AnnotationType)>) -> Substitutions {
    let mut subs = Substitutions::new();
    for (id, ty) in entries {
        assert!(subs.insert(id, ty));
    }
    subs
}

fn expr(kind: TypedExprEnum, n: usize) -> TypedExpr {
    TypedExpr { expr: kind, pos: at(n) }
}

fn stmt(e: TypedExpr) -> TypedStmt {
    TypedStmt { pos: e.pos, stmt: TypedStmtEnum::Expression(e) }
}

fn reference(name: &str, ty: AnnotationType, n: usize) -> TypedExpr {
    expr(TypedExprEnum::RefID(TypedRefID { name: path(name), ty }), n)
}

fn literal(text: &str, kind: LiteralType, ty: AnnotationType, n: usize) -> TypedExpr {
    expr(
        TypedExprEnum::Literal(TypedLiteral {
            value: Literal::new(text.to_string(), kind, at(n)),
            ty,
        }),
        n,
    )
}

fn cannot_infer(pos: Pos) -> ErrorValue {
    ErrorValue::new(
        "cannot infer type".to_string(),
        ErrorType::CannotInfer,
        pos,
        ErrorDisplayType::Error,
        vec![
            ErrorAnnotation::new(Some("type found here".to_string()), pos, ErrorDisplayType::Error),
            ErrorAnnotation::new(
                Some("help: use `is` operator to annotate type".to_string()),
                pos,
                ErrorDisplayType::Info,
            ),
        ],
    )
}

fn invalid_literal(shown: &str, ty_pos: Pos, pos: Pos) -> ErrorValue {
    ErrorValue::new(
        "invalid literal type".to_string(),
        ErrorType::BadLiteralType,
        pos,
        ErrorDisplayType::Error,
        vec![
            ErrorAnnotation::new(
                Some(format!("invalid type `{}`", shown)),
                ty_pos,
                ErrorDisplayType::Error,
            ),
            ErrorAnnotation::new(
                Some("for this literal".to_string()),
                pos,
                ErrorDisplayType::Info,
            ),
        ],
    )
}

#[test]
fn primitives_by_name() {
    assert_eq!(named("bool").is_primitive(), Some(Prim::Bool));
    assert_eq!(named("short").is_primitive(), Some(Prim::I16));
    assert_eq!(named("int").is_primitive(), Some(Prim::I32));
    assert_eq!(named("long").is_primitive(), Some(Prim::I64));
    assert_eq!(named("List").is_primitive(), None);
    assert_eq!(named("").is_primitive(), None);
    assert_eq!(AnnotationType::Tuple(vec![named("int")], at(0)).is_primitive(), None);
    assert_eq!(AnnotationType::Never(at(0)).is_primitive(), None);
    assert_eq!(infer(0).is_primitive(), None);
}

#[test]
fn types_as_shown_in_messages() {
    assert_eq!(named("int").render(), "int");
    assert_eq!(AnnotationType::Tuple(vec![], at(0)).render(), "()");
    assert_eq!(AnnotationType::Tuple(vec![named("int")], at(0)).render(), "(int)");
    assert_eq!(
        AnnotationType::Tuple(vec![named("int"), named("bool"), infer(1)], at(0)).render(),
        "(int, bool, _)"
    );
    assert_eq!(
        AnnotationType::Function(
            vec![named("int"), named("long")],
            Box::new(AnnotationType::Never(at(0))),
            at(0)
        )
        .render(),
        "(int, long) -> !"
    );
    assert_eq!(
        AnnotationType::Function(vec![], Box::new(named("bool")), at(0)).render(),
        "() -> bool"
    );
}

#[test]
fn type_positions() {
    assert_eq!(AnnotationType::Type("int".to_string(), at(1)).pos(), at(1));
    assert_eq!(AnnotationType::Tuple(vec![], at(2)).pos(), at(2));
    assert_eq!(AnnotationType::Function(vec![], Box::new(named("int")), at(3)).pos(), at(3));
    assert_eq!(AnnotationType::Never(at(4)).pos(), at(4));
    assert_eq!(AnnotationType::Infer(9, at(5)).pos(), at(5));
}

#[test]
fn resolved_types_hold_no_variable() {
    assert!(named("int").is_resolved());
    assert!(AnnotationType::Never(at(0)).is_resolved());
    assert!(!infer(0).is_resolved());
    assert!(AnnotationType::Tuple(vec![named("int"), named("bool")], at(0)).is_resolved());
    assert!(!AnnotationType::Tuple(vec![named("int"), infer(2)], at(0)).is_resolved());
    assert!(!AnnotationType::Function(vec![], Box::new(infer(2)), at(0)).is_resolved());
    assert!(!AnnotationType::Function(vec![infer(2)], Box::new(named("int")), at(0)).is_resolved());
}

#[test]
fn copies_are_equal_and_apart() {
    let source = AnnotationType::Function(
        vec![AnnotationType::Tuple(vec![named("int"), infer(1)], at(3))],
        Box::new(named("bool")),
        at(4),
    );
    let mut copy = source.clone();
    assert_eq!(copy, source);
    let subs = solved(vec![(1, named("long"))]);
    assert_eq!(copy.sub(&subs), Ok(()));
    assert_ne!(copy, source);
    assert_eq!(
        source,
        AnnotationType::Function(
            vec![AnnotationType::Tuple(vec![named("int"), infer(1)], at(3))],
            Box::new(named("bool")),
            at(4),
        )
    );
}

#[test]
fn solutions_must_be_resolved() {
    let mut subs = Substitutions::new();
    assert!(subs.get(0).is_none());
    assert!(subs.insert(0, named("int")));
    assert_eq!(subs.get(0), Some(&named("int")));
    assert!(!subs.insert(1, infer(0)));
    assert!(subs.get(1).is_none());
    assert!(!subs.insert(0, AnnotationType::Tuple(vec![infer(4)], at(0))));
    assert_eq!(subs.get(0), Some(&named("int")));
    assert!(subs.insert(0, named("bool")));
    assert_eq!(subs.get(0), Some(&named("bool")));
}

#[test]
fn type_variables_are_replaced_everywhere_in_a_type() {
    let mut ty = AnnotationType::Function(
        vec![infer(0), AnnotationType::Tuple(vec![infer(1), named("bool"), infer(0)], at(7))],
        Box::new(infer(1)),
        at(8),
    );
    let subs = solved(vec![(0, named("int")), (1, AnnotationType::Tuple(vec![], at(50)))]);
    assert_eq!(ty.sub(&subs), Ok(()));
    assert_eq!(
        ty,
        AnnotationType::Function(
            vec![
                named("int"),
                AnnotationType::Tuple(
                    vec![AnnotationType::Tuple(vec![], at(50)), named("bool"), named("int")],
                    at(7)
                )
            ],
            Box::new(AnnotationType::Tuple(vec![], at(50))),
            at(8),
        )
    );
    assert!(ty.is_resolved());
}

#[test]
fn the_walk_over_a_type_stops_at_the_first_unsolved_variable() {
    let mut ty = AnnotationType::Function(
        vec![infer(0), infer(5), infer(0)],
        Box::new(infer(0)),
        at(8),
    );
    let subs = solved(vec![(0, named("int"))]);
    assert_eq!(ty.sub(&subs), Err(cannot_infer(at(205))));
    assert_eq!(
        ty,
        AnnotationType::Function(
            vec![named("int"), infer(5), infer(0)],
            Box::new(infer(0)),
            at(8),
        )
    );
}

#[test]
fn error_builders() {
    assert_eq!(cannot_infer_err(at(9)), cannot_infer(at(9)));
    assert_eq!(
        bad_literal(&AnnotationType::Type("List".to_string(), at(3)), at(9)),
        invalid_literal("List", at(3), at(9))
    );
}

#[test]
fn substitution_leaves_no_type_variable() {
    let block = TypedBlock {
        stmts: vec![
            stmt(reference("x", infer(0), 1)),
            TypedStmt {
                stmt: TypedStmtEnum::VariableDeclaration(TypedBinder {
                    name: path("y"),
                    ty: infer(1),
                    pos: at(2),
                }),
                pos: at(2),
            },
            TypedStmt {
                stmt: TypedStmtEnum::Tag(NameID::new("no_mangle".to_string(), at(3))),
                pos: at(3),
            },
        ],
        ty: infer(2),
        pos: at(4),
    };
    let function = expr(
        TypedExprEnum::Function(TypedFunction {
            ty: AnnotationType::Function(vec![infer(0)], Box::new(infer(2)), at(5)),
            block,
        }),
        6,
    );
    let call = expr(
        TypedExprEnum::FunctionCall(TypedFunctionCall {
            name: path("f"),
            arguments: vec![
                literal("1", LiteralType::Number, infer(0), 7),
                expr(
                    TypedExprEnum::Tuple(TypedTuple {
                        exprs: vec![literal("true", LiteralType::Bool, infer(1), 8)],
                        ty: AnnotationType::Tuple(vec![infer(1)], at(9)),
                    }),
                    9,
                ),
            ],
            ty: infer(2),
            func_ty: AnnotationType::Function(vec![infer(0)], Box::new(infer(2)), at(10)),
        }),
        11,
    );
    let assign = expr(
        TypedExprEnum::VariableAssignDeclaration(TypedAssign {
            binder: TypedBinder { name: path("z"), ty: infer(2), pos: at(12) },
            expr: Box::new(expr(
                TypedExprEnum::Is(TypedIs {
                    expr: Box::new(expr(
                        TypedExprEnum::Yield(TypedYield {
                            expr: Box::new(expr(
                                TypedExprEnum::Return(TypedReturn {
                                    expr: Box::new(reference("x", infer(0), 13)),
                                    ty: AnnotationType::Never(at(14)),
                                }),
                                14,
                            )),
                            ty: infer(2),
                        }),
                        15,
                    )),
                    ty: infer(2),
                }),
                16,
            )),
        }),
        17,
    );
    let reassign = expr(
        TypedExprEnum::VariableAssign(TypedAssign {
            binder: TypedBinder { name: path("z"), ty: infer(2), pos: at(18) },
            expr: Box::new(expr(
                TypedExprEnum::Block(TypedBlock { stmts: vec![], ty: infer(2), pos: at(19) }),
                19,
            )),
        }),
        20,
    );
    let mut stmts = vec![stmt(function), stmt(call), stmt(assign), stmt(reassign)];
    let subs = solved(vec![(0, named("int")), (1, named("bool")), (2, named("long"))]);
    assert_eq!(substitute(&mut stmts, subs), Ok(()));
    let shown = format!("{:?}", stmts);
    assert!(!shown.contains("Infer"));
    assert!(shown.contains("\"long\""));
    // The second statement, as one example, in full.
    let expected_call = expr(
        TypedExprEnum::FunctionCall(TypedFunctionCall {
            name: path("f"),
            arguments: vec![
                literal("1", LiteralType::Number, named("int"), 7),
                expr(
                    TypedExprEnum::Tuple(TypedTuple {
                        exprs: vec![literal("true", LiteralType::Bool, named("bool"), 8)],
                        ty: AnnotationType::Tuple(vec![named("bool")], at(9)),
                    }),
                    9,
                ),
            ],
            ty: named("long"),
            func_ty: AnnotationType::Function(vec![named("int")], Box::new(named("long")), at(10)),
        }),
        11,
    );
    assert_eq!(stmts[1], stmt(expected_call));
}

#[test]
fn every_broken_statement_is_reported() {
    let mut stmts = vec![
        stmt(reference("a", infer(7), 1)),
        stmt(reference("b", infer(0), 2)),
        stmt(literal("true", LiteralType::Bool, infer(0), 3)),
        stmt(reference("c", infer(8), 4)),
    ];
    let subs = solved(vec![(0, named("int"))]);
    assert_eq!(
        substitute(&mut stmts, subs),
        Err(vec![
            cannot_infer(at(207)),
            invalid_literal("int", at(100), at(3)),
            cannot_infer(at(208)),
        ])
    );
    // The statement that could be solved was, whatever became of the others.
    assert_eq!(stmts[1], stmt(reference("b", named("int"), 2)));
    assert_eq!(stmts[0], stmt(reference("a", infer(7), 1)));
    assert_eq!(stmts[2], stmt(literal("true", LiteralType::Bool, named("int"), 3)));
}

#[test]
fn a_broken_statement_keeps_what_was_replaced_before_the_error() {
    let call = expr(
        TypedExprEnum::FunctionCall(TypedFunctionCall {
            name: path("f"),
            arguments: vec![reference("x", infer(0), 1), reference("y", infer(0), 2)],
            ty: infer(0),
            func_ty: infer(9),
        }),
        3,
    );
    let mut stmts = vec![stmt(call)];
    let subs = solved(vec![(0, named("int"))]);
    assert_eq!(substitute(&mut stmts, subs), Err(vec![cannot_infer(at(209))]));
    let expected = expr(
        TypedExprEnum::FunctionCall(TypedFunctionCall {
            name: path("f"),
            arguments: vec![reference("x", infer(0), 1), reference("y", infer(0), 2)],
            ty: named("int"),
            func_ty: infer(9),
        }),
        3,
    );
    assert_eq!(stmts, vec![stmt(expected)]);
}

#[test]
fn a_tuple_stops_at_its_first_broken_member() {
    let tuple = expr(
        TypedExprEnum::Tuple(TypedTuple {
            exprs: vec![
                reference("x", infer(0), 1),
                reference("y", infer(5), 2),
                reference("z", infer(0), 3),
            ],
            ty: AnnotationType::Tuple(vec![infer(0), infer(0), infer(0)], at(4)),
        }),
        5,
    );
    let mut stmts = vec![stmt(tuple)];
    let subs = solved(vec![(0, named("int"))]);
    assert_eq!(substitute(&mut stmts, subs), Err(vec![cannot_infer(at(205))]));
    let expected = expr(
        TypedExprEnum::Tuple(TypedTuple {
            exprs: vec![
                reference("x", named("int"), 1),
                reference("y", infer(5), 2),
                reference("z", infer(0), 3),
            ],
            ty: AnnotationType::Tuple(vec![named("int"), named("int"), named("int")], at(4)),
        }),
        5,
    );
    assert_eq!(stmts, vec![stmt(expected)]);
}

#[test]
fn no_statements_no_errors() {
    let mut stmts: Vec<TypedStmt> = Vec::new();
    assert_eq!(substitute(&mut stmts, Substitutions::new()), Ok(()));
    assert!(stmts.is_empty());
}

#[test]
fn boolean_literal_with_integer_type_is_refused() {
    for name in ["short", "int", "long"] {
        let mut stmts = vec![stmt(literal("true", LiteralType::Bool, infer(0), 6))];
        let subs = solved(vec![(0, named(name))]);
        assert_eq!(
            substitute(&mut stmts, subs),
            Err(vec![invalid_literal(name, at(100), at(6))])
        );
    }
}

#[test]
fn numeric_literal_with_integer_type_is_accepted() {
    for name in ["short", "int", "long"] {
        let mut stmts = vec![stmt(literal("42", LiteralType::Number, infer(0), 6))];
        let subs = solved(vec![(0, named(name))]);
        assert_eq!(substitute(&mut stmts, subs), Ok(()));
        assert_eq!(stmts, vec![stmt(literal("42", LiteralType::Number, named(name), 6))]);
    }
}

#[test]
fn boolean_literal_with_boolean_type_is_accepted() {
    let mut stmts = vec![stmt(literal("false", LiteralType::Bool, named("bool"), 6))];
    assert_eq!(substitute(&mut stmts, Substitutions::new()), Ok(()));
}

#[test]
fn numeric_literal_with_boolean_type_is_refused() {
    let mut stmts = vec![stmt(literal("1", LiteralType::Number, named("bool"), 6))];
    assert_eq!(
        substitute(&mut stmts, Substitutions::new()),
        Err(vec![invalid_literal("bool", at(100), at(6))])
    );
}

#[test]
fn literal_of_a_type_that_is_no_primitive_is_refused() {
    let mut stmts = vec![
        stmt(literal("1", LiteralType::Number, named("List"), 6)),
        stmt(literal(
            "1",
            LiteralType::Number,
            AnnotationType::Tuple(vec![named("int")], at(30)),
            7,
        )),
        stmt(literal("1", LiteralType::Number, AnnotationType::Never(at(31)), 8)),
    ];
    assert_eq!(
        substitute(&mut stmts, Substitutions::new()),
        Err(vec![
            invalid_literal("List", at(100), at(6)),
            invalid_literal("(int)", at(30), at(7)),
            invalid_literal("!", at(31), at(8)),
        ])
    );
}

#[test]
fn text_literal_is_refused_whatever_its_type() {
    for name in ["bool", "short", "int", "long", "str"] {
        let mut stmts = vec![stmt(literal("\"hi\"", LiteralType::String, named(name), 6))];
        assert_eq!(
            substitute(&mut stmts, Substitutions::new()),
            Err(vec![invalid_literal(name, at(100), at(6))])
        );
    }
}

#[test]
fn literal_without_solution_cannot_be_inferred() {
    let mut stmts = vec![stmt(literal("1", LiteralType::Number, infer(3), 6))];
    assert_eq!(
        substitute(&mut stmts, Substitutions::new()),
        Err(vec![cannot_infer(at(203))])
    );
}
