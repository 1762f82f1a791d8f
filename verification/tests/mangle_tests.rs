use fluo::ast::{NameID, Namespace};
use fluo::helpers::Pos;
use fluo::lexer::TokenType;
use fluo::logger::{ErrorAnnotation, ErrorDisplayType, ErrorType, ErrorValue};
use fluo::mangle::{
    gen_mangled_args, mangle_call, mangle_signature, Node, NodeChild, MAX_NESTING,
    MAX_TYPE_NESTING,
};
use fluo::typecheck::annotation::AnnotationType;
use fluo::typecheck::context::{FunctionSignature, TypeCheckSymbTab};

fn at(n: usize) -> Pos {
    Pos::new(n, n + 1, 0)
}

fn named(name: &str) -> AnnotationType {
    AnnotationType::Type(name.to_string(), at(0))
}

fn tuple(members: Vec<AnnotationType>) -> AnnotationType {
    AnnotationType::Tuple(members, at(0))
}

fn path(names: &[&str]) -> Namespace {
    Namespace::new(
        names.iter().map(|name| NameID::new(name.to_string(), at(0))).collect(),
        at(40),
    )
}

fn leaf(descriptor: char, text: &str) -> Node {
    Node { descriptor, child: NodeChild::RawString(text.to_string()) }
}

fn inner(descriptor: char, children: Vec<Node>) -> Node {
    Node { descriptor, child: NodeChild::Children(children) }
}

fn malformed(len: usize) -> ErrorValue {
    ErrorValue::new(
        "malformed mangled name".to_string(),
        ErrorType::MalformedMangledName,
        Pos::new(0, len, 0),
        ErrorDisplayType::Error,
        Vec::new(),
    )
}

fn not_manglable(shown: &str, pos: Pos) -> ErrorValue {
    ErrorValue::new(
        "type cannot be mangled".to_string(),
        ErrorType::NotManglable,
        pos,
        ErrorDisplayType::Error,
        vec![ErrorAnnotation::new(
            Some(format!("no mangled form for `{}`", shown)),
            pos,
            ErrorDisplayType::Error,
        )],
    )
}

#[test]
fn names_are_their_own_mangling() {
    assert_eq!(NameID::new("my_func".to_string(), at(0)).mangle(), "my_func");
}

#[test]
fn namespace_is_one_segment_for_each_name() {
    assert_eq!(path(&["List_my", "get"]).mangle(), "N7List_my_N3get");
    assert_eq!(path(&["List", "my_get"]).mangle(), "N4List_N6my_get");
    assert_eq!(path(&["entry"]).mangle(), "N5entry");
    assert_eq!(path(&[]).mangle(), "");
}

#[test]
fn named_types_are_value_segments() {
    assert_eq!(named("int").mangle(), Ok("V3int".to_string()));
    assert_eq!(named("bool").mangle(), Ok("V4bool".to_string()));
    assert_eq!(named("a_rather_long_name").mangle(), Ok("V18a_rather_long_name".to_string()));
}

#[test]
fn tuples_join_their_members() {
    assert_eq!(
        tuple(vec![named("int"), named("int")]).mangle(),
        Ok("t11V3int_V3int".to_string())
    );
    assert_eq!(tuple(vec![]).mangle(), Ok("t0".to_string()));
    assert_eq!(
        tuple(vec![tuple(vec![named("bool")]), named("int")]).mangle(),
        Ok("t14t6V4bool_V3int".to_string())
    );
}

#[test]
fn lengths_count_characters() {
    assert_eq!(named("größe").mangle(), Ok("V5größe".to_string()));
    assert_eq!(
        Node::demangle("V5größe".to_string()),
        Ok(inner('$', vec![leaf('V', "größe")]))
    );
}

#[test]
fn types_without_a_form_are_not_manglable() {
    let function = AnnotationType::Function(vec![named("int")], Box::new(named("bool")), at(5));
    assert_eq!(function.mangle(), Err(not_manglable("(int) -> bool", at(5))));
    assert_eq!(AnnotationType::Never(at(6)).mangle(), Err(not_manglable("!", at(6))));
    assert_eq!(AnnotationType::Infer(3, at(7)).mangle(), Err(not_manglable("_", at(7))));
    let nested = AnnotationType::Tuple(vec![named("int"), AnnotationType::Infer(1, at(9))], at(8));
    assert_eq!(nested.mangle(), Err(not_manglable("(int, _)", at(8))));
}

#[test]
fn argument_lists() {
    assert_eq!(gen_mangled_args(&[]), Ok("A0".to_string()));
    assert_eq!(gen_mangled_args(&[named("int")]), Ok("A7P5V3int".to_string()));
    assert_eq!(
        gen_mangled_args(&[named("int"), named("int")]),
        Ok("A15P5V3int_P5V3int".to_string())
    );
}

#[test]
fn first_bad_argument_is_reported() {
    let types = vec![
        named("int"),
        AnnotationType::Never(at(11)),
        AnnotationType::Infer(0, at(12)),
    ];
    assert_eq!(gen_mangled_args(&types), Err(not_manglable("!", at(11))));
}

#[test]
fn calls_are_path_and_arguments() {
    assert_eq!(
        mangle_call(&path(&["my_func"]), &[named("int"), named("int")]),
        Ok("N7my_func_A15P5V3int_P5V3int".to_string())
    );
    assert_eq!(mangle_call(&path(&[]), &[]), Ok("A0".to_string()));
}

#[test]
fn my_func_int_int_to_bool() {
    let namespace = path(&["my_func"]);
    let params = vec![named("int"), named("int")];
    let ret = named("bool");
    let context = TypeCheckSymbTab::new();
    let mangled = namespace.mangle_types(&params, Some(&ret), &context).unwrap();
    assert_eq!(mangled, "N7my_func_A15P5V3int_P5V3int_R6V4bool");
    let tree = Node::demangle(mangled).unwrap();
    assert_eq!(
        tree,
        inner(
            '$',
            vec![
                leaf('N', "my_func"),
                inner(
                    'A',
                    vec![
                        inner('P', vec![leaf('V', "int")]),
                        inner('P', vec![leaf('V', "int")]),
                    ]
                ),
                inner('R', vec![leaf('V', "bool")]),
            ]
        )
    );
    assert_eq!(Ok(tree), Node::from_type(&namespace, &params, &ret));
}

#[test]
fn signatures_with_return_type_first_bad_type_is_reported() {
    let namespace = path(&["f"]);
    assert_eq!(
        mangle_signature(&namespace, &[named("int")], &AnnotationType::Never(at(3))),
        Err(not_manglable("!", at(3)))
    );
    assert_eq!(
        mangle_signature(
            &namespace,
            &[AnnotationType::Infer(2, at(4))],
            &AnnotationType::Never(at(3))
        ),
        Err(not_manglable("_", at(4)))
    );
}

#[test]
fn mangling_twice_gives_the_same_text() {
    let namespace = path(&["outer", "inner", "run"]);
    let params = vec![tuple(vec![named("int"), named("long")]), named("bool")];
    let ret = tuple(vec![named("short")]);
    let context = TypeCheckSymbTab::new();
    let once = namespace.mangle_types(&params, Some(&ret), &context);
    let again = namespace.mangle_types(&params, Some(&ret), &context);
    assert_eq!(once, again);
    assert_eq!(
        once,
        Ok("N5outer_N5inner_N3run_A27P15t12V3int_V4long_P6V4bool_R9t7V5short".to_string())
    );
}

#[test]
fn different_signatures_have_different_names() {
    let context = TypeCheckSymbTab::new();
    let cases: Vec<(Namespace, Vec<AnnotationType>, AnnotationType)> = vec![
        (path(&["ab"]), vec![], named("int")),
        (path(&["ab"]), vec![], named("bool")),
        (path(&["ab"]), vec![named("int")], named("int")),
        (path(&["ab"]), vec![named("int"), named("int")], named("int")),
        (path(&["ab"]), vec![tuple(vec![named("int"), named("int")])], named("int")),
        (path(&["ab", "cd"]), vec![], named("int")),
        (path(&["ab_N2cd"]), vec![], named("int")),
        (path(&["ab"]), vec![], tuple(vec![named("int")])),
    ];
    let names: Vec<String> = cases
        .iter()
        .map(|(namespace, params, ret)| {
            namespace.mangle_types(params, Some(ret), &context).unwrap()
        })
        .collect();
    for i in 0..names.len() {
        for j in 0..names.len() {
            assert_eq!(names[i] == names[j], i == j);
        }
    }
}

#[test]
fn source_ranges_do_not_show_in_names() {
    let context = TypeCheckSymbTab::new();
    let here = Namespace::new(vec![NameID::new("ab".to_string(), at(1))], at(2));
    let there = Namespace::new(vec![NameID::new("ab".to_string(), at(70))], at(80));
    let int_here = AnnotationType::Type("int".to_string(), at(3));
    let int_there = AnnotationType::Type("int".to_string(), at(90));
    assert_eq!(
        here.mangle_types(&[], Some(&int_here), &context),
        there.mangle_types(&[], Some(&int_there), &context)
    );
}

#[test]
fn round_trip_of_signatures() {
    let cases: Vec<(Namespace, Vec<AnnotationType>, AnnotationType)> = vec![
        (path(&["entry"]), vec![], named("int")),
        (path(&["my_func"]), vec![named("int"), named("int")], named("bool")),
        (
            path(&["std", "list", "push_back"]),
            vec![tuple(vec![named("int"), tuple(vec![named("bool"), named("long")])])],
            tuple(vec![named("int"), named("int")]),
        ),
        (path(&["größe"]), vec![named("zahl")], named("zahl")),
        (
            path(&["unit_first"]),
            vec![tuple(vec![tuple(vec![]), named("int")])],
            tuple(vec![tuple(vec![]), tuple(vec![tuple(vec![]), named("bool")])]),
        ),
        (path(&["main"]), vec![], tuple(vec![])),
        (path(&["unit_last"]), vec![tuple(vec![named("int"), tuple(vec![])])], tuple(vec![])),
        (path(&["x"]), vec![named("T"), tuple(vec![named("U")])], named("V")),
        (path(&["a", "b", "c"]), vec![tuple(vec![])], named("_")),
    ];
    let context = TypeCheckSymbTab::new();
    for (namespace, params, ret) in cases {
        let mangled = namespace.mangle_types(&params, Some(&ret), &context).unwrap();
        assert_eq!(Node::demangle(mangled), Node::from_type(&namespace, &params, &ret));
    }
}

#[test]
fn empty_tuple_before_another_member() {
    let ty = tuple(vec![tuple(vec![]), named("int")]);
    assert_eq!(ty.mangle(), Ok("t8t0_V3int".to_string()));
    assert_eq!(
        Node::demangle("t8t0_V3int".to_string()),
        Ok(inner('$', vec![inner('t', vec![inner('t', vec![]), leaf('V', "int")])]))
    );
}

#[test]
fn empty_tuple_as_return_type_reads_back() {
    let namespace = path(&["main"]);
    let ret = tuple(vec![]);
    let context = TypeCheckSymbTab::new();
    let mangled = namespace.mangle_types(&[], Some(&ret), &context).unwrap();
    assert_eq!(mangled, "N4main_A0_R2t0");
    assert_eq!(
        Node::demangle(mangled),
        Ok(inner(
            '$',
            vec![
                leaf('N', "main"),
                inner('A', vec![]),
                inner('R', vec![inner('t', vec![])]),
            ]
        ))
    );
}

#[test]
fn names_of_one_character_read_back() {
    assert_eq!(path(&["x"]).mangle(), "N1x");
    assert_eq!(Node::demangle("N1x".to_string()), Ok(inner('$', vec![leaf('N', "x")])));
    assert_eq!(named("T").mangle(), Ok("V1T".to_string()));
    assert_eq!(
        Node::demangle("V1T".to_string()),
        Ok(inner('$', vec![NodeChild::from_type(&named("T")).unwrap()]))
    );
    assert_eq!(Node::demangle("V1T".to_string()), Ok(inner('$', vec![leaf('V', "T")])));
}

#[test]
fn names_that_do_not_read_back() {
    // A digit in first or second place: the reader cannot tell such a name
    // from a length, or from a row of segments.
    assert_eq!(named("i32").mangle(), Ok("V3i32".to_string()));
    assert_eq!(Node::demangle("V3i32".to_string()), Err(malformed(5)));
    assert_eq!(named("x1").mangle(), Ok("V2x1".to_string()));
    assert_eq!(Node::demangle("V2x1".to_string()), Err(malformed(4)));
    assert_eq!(named("a0").mangle(), Ok("V2a0".to_string()));
    assert_eq!(
        Node::demangle("V2a0".to_string()),
        Ok(inner('$', vec![inner('V', vec![inner('a', vec![])])]))
    );
    assert_eq!(named("1a").mangle(), Ok("V21a".to_string()));
    assert_eq!(Node::demangle("V21a".to_string()), Err(malformed(4)));
    assert_eq!(named("7").mangle(), Ok("V17".to_string()));
    assert_eq!(Node::demangle("V17".to_string()), Err(malformed(3)));
}

fn nested_text(levels: usize) -> String {
    let mut text = "ab".to_string();
    for _ in 0..levels {
        text = format!("t{}{}", text.chars().count(), text);
    }
    text
}

fn nested_tree(levels: usize) -> NodeChild {
    let mut child = NodeChild::RawString("ab".to_string());
    for _ in 0..levels {
        child = NodeChild::Children(vec![Node { descriptor: 't', child }]);
    }
    child
}

fn nested_type(depth: usize) -> AnnotationType {
    let mut ty = named("int");
    for _ in 1..depth {
        ty = tuple(vec![ty]);
    }
    ty
}

#[test]
fn segments_nest_up_to_the_limit() {
    assert_eq!(MAX_NESTING, 128);
    assert_eq!(nested_text(2), "t4t2ab");
    assert_eq!(NodeChild::demangle(nested_text(0)), Ok(nested_tree(0)));
    assert_eq!(NodeChild::demangle(nested_text(1)), Ok(nested_tree(1)));
    assert_eq!(NodeChild::demangle(nested_text(127)), Ok(nested_tree(127)));
    assert_eq!(NodeChild::demangle(nested_text(128)), Ok(nested_tree(128)));
}

#[test]
fn segments_that_nest_deeper_are_malformed() {
    for levels in [129, 130, 500] {
        let text = nested_text(levels);
        let len = text.chars().count();
        assert_eq!(NodeChild::demangle(text.clone()), Err(malformed(len)));
        assert_eq!(Node::demangle(text), Err(malformed(len)));
    }
}

#[test]
fn too_deep_a_segment_spoils_the_name_wherever_it_stands() {
    let text = format!("N2ab_{}_N2cd", nested_text(129));
    let len = text.chars().count();
    assert_eq!(Node::demangle(text), Err(malformed(len)));
    let text = format!("N2ab_{}_N2cd", nested_text(128));
    assert!(Node::demangle(text).is_ok());
}

#[test]
fn types_nest_up_to_their_limit() {
    assert_eq!(MAX_TYPE_NESTING, 126);
    assert_eq!(nested_type(1).mangle(), Ok("V3int".to_string()));
    assert_eq!(nested_type(2).mangle(), Ok("t5V3int".to_string()));
    assert!(nested_type(125).mangle().is_ok());
    assert!(nested_type(126).mangle().is_ok());
    assert!(NodeChild::from_type(&nested_type(126)).is_ok());
}

#[test]
fn types_that_nest_deeper_are_not_manglable() {
    for depth in [127, 128, 300] {
        let ty = nested_type(depth);
        let e = ty.mangle().unwrap_err();
        assert_eq!(e.error, ErrorType::NotManglable);
        assert_eq!(e.message, "type cannot be mangled");
        assert_eq!(e.position, at(0));
        assert_eq!(NodeChild::from_type(&ty), Err(e));
        let namespace = path(&["ab"]);
        let context = TypeCheckSymbTab::new();
        assert!(namespace.mangle_types(&[], Some(&ty), &context).is_err());
        assert!(namespace.mangle_types(&[nested_type(depth)], None, &context).is_err());
        assert!(Node::from_type(&namespace, &[nested_type(depth)], &named("int")).is_err());
    }
}

#[test]
fn the_deepest_name_that_is_written_is_read() {
    let namespace = path(&["ab"]);
    let params = vec![nested_type(126), named("int")];
    let ret = nested_type(126);
    let context = TypeCheckSymbTab::new();
    let mangled = namespace.mangle_types(&params, Some(&ret), &context).unwrap();
    assert_eq!(Node::demangle(mangled), Node::from_type(&namespace, &params, &ret));
    let overload = namespace.mangle_overload(&params, &ret, TokenType::MUL).unwrap();
    assert!(Node::demangle(overload).is_ok());
}

#[test]
fn operators_have_three_letter_codes() {
    let codes = vec![
        (TokenType::ADD, "O3add"),
        (TokenType::SUB, "O3sub"),
        (TokenType::MUL, "O3mul"),
        (TokenType::DIV, "O3div"),
        (TokenType::MOD, "O3mod"),
        (TokenType::DMOD, "O3mdd"),
        (TokenType::GT, "O3grt"),
        (TokenType::LT, "O3lst"),
        (TokenType::GE, "O3get"),
        (TokenType::LE, "O3let"),
        (TokenType::EQ, "O3eqt"),
    ];
    for (token, expected) in codes {
        assert_eq!(token.mangle(at(0)), Ok(expected.to_string()));
    }
}

#[test]
fn other_tokens_are_not_manglable() {
    let expected = ErrorValue::new(
        "operator cannot be overloaded".to_string(),
        ErrorType::NotManglable,
        at(17),
        ErrorDisplayType::Error,
        Vec::new(),
    );
    assert_eq!(TokenType::NE.mangle(at(17)), Err(expected.clone()));
    assert_eq!(TokenType::EQUALS.mangle(at(17)), Err(expected.clone()));
    assert_eq!(TokenType::AS.mangle(at(17)), Err(expected.clone()));
    assert_eq!(TokenType::IS.mangle(at(17)), Err(expected));
}

#[test]
fn overloads_start_with_the_operator_tag() {
    let namespace = path(&["add_ints"]);
    let params = vec![named("int"), named("int")];
    assert_eq!(
        namespace.mangle_overload(&params, &named("int"), TokenType::ADD),
        Ok("O3add_N8add_ints_A15P5V3int_P5V3int_R5V3int".to_string())
    );
    assert_eq!(
        Node::demangle("O3add_N8add_ints_A15P5V3int_P5V3int_R5V3int".to_string()),
        Ok(inner(
            '$',
            vec![
                leaf('O', "add"),
                leaf('N', "add_ints"),
                inner(
                    'A',
                    vec![
                        inner('P', vec![leaf('V', "int")]),
                        inner('P', vec![leaf('V', "int")]),
                    ]
                ),
                inner('R', vec![leaf('V', "int")]),
            ]
        ))
    );
}

#[test]
fn overload_of_a_token_that_is_no_operator() {
    let namespace = path(&["f"]);
    let r = namespace.mangle_overload(&[], &named("int"), TokenType::NE);
    assert_eq!(
        r,
        Err(ErrorValue::new(
            "operator cannot be overloaded".to_string(),
            ErrorType::NotManglable,
            at(40),
            ErrorDisplayType::Error,
            Vec::new(),
        ))
    );
}

#[test]
fn overload_with_a_type_without_form() {
    let namespace = path(&["f"]);
    let r = namespace.mangle_overload(&[], &AnnotationType::Never(at(2)), TokenType::ADD);
    assert_eq!(r, Err(not_manglable("!", at(2))));
}

#[test]
fn demangle_of_nothing() {
    assert_eq!(Node::demangle(String::new()), Ok(inner('$', vec![])));
    assert_eq!(NodeChild::demangle(String::new()), Ok(NodeChild::Children(vec![])));
}

#[test]
fn demangle_of_one_character() {
    assert_eq!(Node::demangle("x".to_string()), Ok(leaf('$', "x")));
    assert_eq!(NodeChild::demangle("7".to_string()), Ok(NodeChild::RawString("7".to_string())));
    assert_eq!(NodeChild::demangle("_".to_string()), Ok(NodeChild::RawString("_".to_string())));
}

#[test]
fn demangle_of_a_raw_text() {
    assert_eq!(
        NodeChild::demangle("my_func".to_string()),
        Ok(NodeChild::RawString("my_func".to_string()))
    );
    assert_eq!(Node::demangle("int".to_string()), Ok(leaf('$', "int")));
}

#[test]
fn raw_text_after_segments_is_the_whole_text() {
    assert_eq!(
        NodeChild::demangle("N1a_xyz".to_string()),
        Ok(NodeChild::RawString("N1a_xyz".to_string()))
    );
}

#[test]
fn demangle_passes_over_one_character_after_a_payload() {
    assert_eq!(
        Node::demangle("N2abXN2cd".to_string()),
        Ok(inner('$', vec![leaf('N', "ab"), leaf('N', "cd")]))
    );
}

#[test]
fn demangle_drops_a_last_lone_character() {
    assert_eq!(Node::demangle("N2ab_x".to_string()), Ok(inner('$', vec![leaf('N', "ab")])));
}

#[test]
fn demangle_reads_leading_zeros() {
    assert_eq!(Node::demangle("N005entry".to_string()), Ok(inner('$', vec![leaf('N', "entry")])));
}

#[test]
fn demangle_of_an_empty_payload_before_a_separator() {
    assert_eq!(
        Node::demangle("A0_R5V3int".to_string()),
        Ok(inner('$', vec![inner('A', vec![]), inner('R', vec![leaf('V', "int")])]))
    );
}

#[test]
fn length_beyond_the_text_is_malformed() {
    assert_eq!(Node::demangle("N9abc".to_string()), Err(malformed(5)));
    assert_eq!(Node::demangle("N6entry_P9V3int".to_string()).is_err(), false);
    assert_eq!(Node::demangle("N5entry_P9V3int".to_string()), Err(malformed(15)));
}

#[test]
fn length_above_zero_that_ends_the_text_is_malformed() {
    assert_eq!(Node::demangle("N5".to_string()), Err(malformed(2)));
    assert_eq!(Node::demangle("N1".to_string()), Err(malformed(2)));
    assert_eq!(NodeChild::demangle("N12345".to_string()), Err(malformed(6)));
    assert_eq!(Node::demangle("N2ab_R1".to_string()), Err(malformed(7)));
}

#[test]
fn length_of_zero_may_end_the_text() {
    assert_eq!(Node::demangle("N0".to_string()), Ok(inner('$', vec![inner('N', vec![])])));
    assert_eq!(Node::demangle("N000".to_string()), Ok(inner('$', vec![inner('N', vec![])])));
    assert_eq!(Node::demangle("t0".to_string()), Ok(inner('$', vec![inner('t', vec![])])));
    assert_eq!(
        Node::demangle("N2ab_A0".to_string()),
        Ok(inner('$', vec![leaf('N', "ab"), inner('A', vec![])]))
    );
    assert_eq!(
        Node::demangle("R5t0_t0".to_string()),
        Ok(inner('$', vec![inner('R', vec![inner('t', vec![]), inner('t', vec![])])]))
    );
}

#[test]
fn length_beyond_the_machine_is_malformed() {
    let text = "N99999999999999999999999999999999999999999a".to_string();
    assert_eq!(Node::demangle(text), Err(malformed(43)));
}

#[test]
fn malformed_payload_makes_the_whole_malformed() {
    assert_eq!(Node::demangle("N5entry_R4V9ab".to_string()), Err(malformed(14)));
}

#[test]
fn malformed_names_carry_their_kind() {
    let e = Node::demangle("N9abc".to_string()).unwrap_err();
    assert_eq!(e.error, ErrorType::MalformedMangledName);
    assert_eq!(e.message, "malformed mangled name");
    assert_eq!(e.mode, ErrorDisplayType::Error);
}

#[test]
fn trees_from_names_and_types() {
    assert_eq!(
        NodeChild::from_name(NameID::new("entry".to_string(), at(0))),
        NodeChild::RawString("entry".to_string())
    );
    assert_eq!(
        NodeChild::from_namespace(&path(&["a_b", "cd"])),
        vec![leaf('N', "a_b"), leaf('N', "cd")]
    );
    assert_eq!(NodeChild::from_type(&named("int")), Ok(leaf('V', "int")));
    assert_eq!(
        NodeChild::from_type(&tuple(vec![named("int"), tuple(vec![])])),
        Ok(inner('t', vec![leaf('V', "int"), inner('t', vec![])]))
    );
    assert_eq!(
        NodeChild::from_type(&AnnotationType::Never(at(1))),
        Err(not_manglable("!", at(1)))
    );
}

#[test]
fn tree_of_a_signature_with_a_bad_type() {
    let r = Node::from_type(&path(&["f"]), &[AnnotationType::Never(at(1))], &named("int"));
    assert_eq!(r, Err(not_manglable("!", at(1))));
    let r = Node::from_type(&path(&["f"]), &[named("int")], &AnnotationType::Infer(0, at(2)));
    assert_eq!(r, Err(not_manglable("_", at(2))));
}

#[test]
fn declared_signature_is_found_under_its_mangled_name() {
    let mut context = TypeCheckSymbTab::new();
    let namespace = path(&["my_func"]);
    let signature = FunctionSignature::new(vec![named("int"), named("int")], named("bool"), at(3));
    assert_eq!(context.declare(&namespace, signature), Ok(()));
    assert!(context.lookup_exact("N7my_func_A15P5V3int_P5V3int_R6V4bool").is_some());
}
