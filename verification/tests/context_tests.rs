use fluo::ast::{NameID, Namespace};
use fluo::helpers::Pos;
use fluo::logger::{ErrorAnnotation, ErrorDisplayType, ErrorType, ErrorValue};
use fluo::typecheck::annotation::AnnotationType;
use fluo::typecheck::context::{FunctionSignature, SymbTabObj, TypeCheckSymbTab};

fn at(n: usize) -> Pos {
    Pos::new(n, n + 1, 0)
}

fn named(name: &str) -> AnnotationType {
    AnnotationType::Type(name.to_string(), at(0))
}

fn path(names: &[&str]) -> Namespace {
    Namespace::new(
        names.iter().map(|name| NameID::new(name.to_string(), at(0))).collect(),
        at(40),
    )
}

fn signature(params: Vec<AnnotationType>, ret: AnnotationType, n: usize) -> FunctionSignature {
    FunctionSignature::new(params, ret, at(n))
}

fn duplicate(again: Pos, first: Pos) -> ErrorValue {
    ErrorValue::new(
        "symbol is already declared".to_string(),
        ErrorType::DuplicateSymbol,
        again,
        ErrorDisplayType::Error,
        vec![
            ErrorAnnotation::new(
                Some("declared again here".to_string()),
                again,
                ErrorDisplayType::Error,
            ),
            ErrorAnnotation::new(
                Some("first declared here".to_string()),
                first,
                ErrorDisplayType::Info,
            ),
        ],
    )
}

fn ambiguous(pos: Pos, candidates: Vec<(&str, Pos)>) -> ErrorValue {
    ErrorValue::new(
        "cannot infer return type".to_string(),
        ErrorType::CannotInferReturnType,
        pos,
        ErrorDisplayType::Error,
        candidates
            .into_iter()
            .map(|(shown, at)| {
                ErrorAnnotation::new(
                    Some(format!("possible return type `{}`", shown)),
                    at,
                    ErrorDisplayType::Info,
                )
            })
            .collect(),
    )
}

#[test]
fn a_new_table_is_empty() {
    let context = TypeCheckSymbTab::new();
    assert_eq!(context.len(), 0);
    assert!(context.lookup_exact("N5entry_A0_R5V3int").is_none());
    assert!(context.lookup_prefix("").is_empty());
}

#[test]
fn declared_functions_stand_under_their_mangled_names() {
    let mut context = TypeCheckSymbTab::new();
    assert_eq!(context.declare(&path(&["entry"]), signature(vec![], named("int"), 1)), Ok(()));
    assert_eq!(
        context.declare(
            &path(&["my_func"]),
            signature(vec![named("int"), named("int")], named("bool"), 2)
        ),
        Ok(())
    );
    assert_eq!(context.len(), 2);
    assert_eq!(
        context.lookup_exact("N5entry_A0_R5V3int"),
        Some(&SymbTabObj::Function(signature(vec![], named("int"), 1)))
    );
    assert_eq!(
        context.lookup_exact("N7my_func_A15P5V3int_P5V3int_R6V4bool"),
        Some(&SymbTabObj::Function(signature(vec![named("int"), named("int")], named("bool"), 2)))
    );
    assert_eq!(context.lookup_exact("N7my_func_A15P5V3int_P5V3int"), None);
    assert_eq!(context.lookup_exact("N7my_func"), None);
}

#[test]
fn second_declaration_of_a_signature_is_a_duplicate() {
    let mut context = TypeCheckSymbTab::new();
    assert_eq!(context.declare(&path(&["entry"]), signature(vec![], named("int"), 1)), Ok(()));
    assert_eq!(
        context.declare(&path(&["entry"]), signature(vec![], named("int"), 9)),
        Err(duplicate(at(9), at(1)))
    );
    assert_eq!(context.len(), 1);
    assert_eq!(
        context.lookup_exact("N5entry_A0_R5V3int"),
        Some(&SymbTabObj::Function(signature(vec![], named("int"), 1)))
    );
}

#[test]
fn overloads_on_argument_or_return_type_are_no_duplicates() {
    let mut context = TypeCheckSymbTab::new();
    assert_eq!(context.declare(&path(&["f"]), signature(vec![], named("int"), 1)), Ok(()));
    assert_eq!(context.declare(&path(&["f"]), signature(vec![], named("bool"), 2)), Ok(()));
    assert_eq!(
        context.declare(&path(&["f"]), signature(vec![named("int")], named("int"), 3)),
        Ok(())
    );
    assert_eq!(context.len(), 3);
}

#[test]
fn signature_that_cannot_be_mangled_is_not_declared() {
    let mut context = TypeCheckSymbTab::new();
    let r = context.declare(
        &path(&["f"]),
        signature(vec![named("int")], AnnotationType::Infer(0, at(5)), 1),
    );
    let e = r.unwrap_err();
    assert_eq!(e.error, ErrorType::NotManglable);
    assert_eq!(e.position, at(5));
    assert_eq!(context.len(), 0);
}

#[test]
fn declared_types_stand_under_their_mangled_path() {
    let mut context = TypeCheckSymbTab::new();
    let definition = AnnotationType::Tuple(vec![named("int"), named("int")], at(3));
    assert_eq!(context.declare_type(&path(&["geo", "Point"]), definition), Ok(()));
    assert_eq!(
        context.lookup_exact("N3geo_N5Point"),
        Some(&SymbTabObj::CustomType(AnnotationType::Tuple(
            vec![named("int"), named("int")],
            at(3)
        )))
    );
    assert_eq!(
        context.declare_type(&path(&["geo", "Point"]), AnnotationType::Type("int".to_string(), at(8))),
        Err(duplicate(at(8), at(3)))
    );
}

#[test]
fn prefix_lookup_gives_every_match_in_order() {
    let mut context = TypeCheckSymbTab::new();
    context.declare(&path(&["f"]), signature(vec![named("int")], named("int"), 1)).unwrap();
    context.declare(&path(&["g"]), signature(vec![named("int")], named("int"), 2)).unwrap();
    context.declare(&path(&["f"]), signature(vec![named("int")], named("bool"), 3)).unwrap();
    context.declare(&path(&["f"]), signature(vec![], named("bool"), 4)).unwrap();
    let found = context.lookup_prefix("N1f_A7P5V3int");
    let keys: Vec<&str> = found.iter().map(|row| row.0.as_str()).collect();
    assert_eq!(keys, vec!["N1f_A7P5V3int_R5V3int", "N1f_A7P5V3int_R6V4bool"]);
    assert_eq!(
        found[1].1,
        &SymbTabObj::Function(signature(vec![named("int")], named("bool"), 3))
    );
    assert_eq!(context.lookup_prefix("N1f").len(), 3);
    assert_eq!(context.lookup_prefix("N1").len(), 4);
    assert_eq!(context.lookup_prefix("N1h").len(), 0);
}

#[test]
fn one_fitting_declaration_gives_its_return_type() {
    let mut context = TypeCheckSymbTab::new();
    context.declare(&path(&["f"]), signature(vec![named("int")], named("bool"), 1)).unwrap();
    context.declare(&path(&["g"]), signature(vec![named("int")], named("int"), 2)).unwrap();
    context.declare(&path(&["f"]), signature(vec![], named("long"), 3)).unwrap();
    let namespace = path(&["f"]);
    let params = vec![named("int")];
    let elided = namespace.mangle_types(&params, None, &context);
    let spelled_out = namespace.mangle_types(&params, Some(&named("bool")), &context);
    assert_eq!(elided, spelled_out);
    assert_eq!(elided, Ok("N1f_A7P5V3int_R6V4bool".to_string()));
}

#[test]
fn no_fitting_declaration_gives_the_empty_text() {
    let mut context = TypeCheckSymbTab::new();
    context.declare(&path(&["g"]), signature(vec![named("int")], named("int"), 2)).unwrap();
    assert_eq!(path(&["f"]).mangle_types(&[named("int")], None, &context), Ok(String::new()));
    assert_eq!(path(&["g"]).mangle_types(&[named("bool")], None, &context), Ok(String::new()));
    assert_eq!(
        path(&["g"]).mangle_types(&[], None, &TypeCheckSymbTab::new()),
        Ok(String::new())
    );
}

#[test]
fn two_fitting_declarations_are_ambiguous() {
    let mut context = TypeCheckSymbTab::new();
    context.declare(&path(&["f"]), signature(vec![named("int")], named("bool"), 1)).unwrap();
    context.declare(&path(&["f"]), signature(vec![named("int")], named("int"), 2)).unwrap();
    let r = path(&["f"]).mangle_types(&[named("int")], None, &context);
    assert_eq!(r, Err(ambiguous(at(40), vec![("bool", at(1)), ("int", at(2))])));
    let e = r.unwrap_err();
    assert_eq!(e.error, ErrorType::CannotInferReturnType);
    assert_eq!(e.annotations.len(), 2);
}

#[test]
fn three_fitting_declarations_are_listed_in_order() {
    let mut context = TypeCheckSymbTab::new();
    let pair = AnnotationType::Tuple(vec![named("int"), named("int")], at(0));
    context.declare(&path(&["f"]), signature(vec![], named("bool"), 1)).unwrap();
    context.declare(&path(&["f"]), signature(vec![], pair, 2)).unwrap();
    context.declare(&path(&["f"]), signature(vec![], named("long"), 3)).unwrap();
    assert_eq!(
        path(&["f"]).mangle_types(&[], None, &context),
        Err(ambiguous(at(40), vec![("bool", at(1)), ("(int, int)", at(2)), ("long", at(3))]))
    );
}

#[test]
fn a_type_under_a_fitting_key_is_no_candidate() {
    let mut context = TypeCheckSymbTab::new();
    // A path whose only name happens to look like a call.
    context.declare_type(&path(&["f_A0_R5V3int"]), named("int")).unwrap();
    context.declare(&path(&["f"]), signature(vec![], named("bool"), 1)).unwrap();
    assert_eq!(context.lookup_prefix("N1").len(), 2);
    assert_eq!(
        path(&["f"]).mangle_types(&[], None, &context),
        Ok("N1f_A0_R6V4bool".to_string())
    );
}

#[test]
fn elision_with_an_argument_that_cannot_be_mangled() {
    let context = TypeCheckSymbTab::new();
    let r = path(&["f"]).mangle_types(&[AnnotationType::Never(at(6))], None, &context);
    let e = r.unwrap_err();
    assert_eq!(e.error, ErrorType::NotManglable);
    assert_eq!(e.position, at(6));
}

#[test]
fn positions_of_entries() {
    assert_eq!(SymbTabObj::Function(signature(vec![], named("int"), 4)).pos(), at(4));
    assert_eq!(SymbTabObj::CustomType(AnnotationType::Never(at(5))).pos(), at(5));
}
