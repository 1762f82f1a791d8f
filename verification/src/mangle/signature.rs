//! Writing the mangled name of a type, of a call and of a function symbol.

use super::demangle::MAX_NESTING;
use super::tree::{
    lemma_text_next, lemma_text_of_one, mangled_text, segment, segments, ChildView, NodeView,
};
use crate::ast::{NameID, Namespace};
use crate::helpers::Pos;
use crate::lexer::TokenType;
use crate::logger::{
    ErrorAnnotation, ErrorAnnotationView, ErrorDisplayType, ErrorType, ErrorValue, ErrorValueView,
};
use crate::text::{decimal, decimal_string};
use crate::typecheck::annotation::annotation_type::{
    group_type_view, render_type, type_views, AnnotationType, TypeView,
};
use vstd::prelude::*;

verus! {

/// The node of one name of a namespace path.
pub open spec fn name_node(name: Seq<char>) -> NodeView {
    NodeView { descriptor: 'N', child: ChildView::RawString(name) }
}

/// The nodes of a namespace path.
pub open spec fn name_nodes(names: Seq<Seq<char>>) -> Seq<NodeView> {
    names.map_values(|name: Seq<char>| name_node(name))
}

/// How deep a type that is mangled may nest: a named type is at depth one,
/// a tuple one deeper than its deepest member. A symbol puts a type two
/// segments below its own row, so a type within this limit is read back
/// within `MAX_NESTING`.
pub const MAX_TYPE_NESTING: usize = MAX_NESTING - 2;

/// Whether the grammar has a form for the type that nests no deeper than
/// `depth`: a name has, and so has a tuple whose members all have one that
/// nests no deeper than `depth - 1`. A function type, the empty type and a
/// type variable have none.
pub open spec fn manglable_within(ty: TypeView, depth: nat) -> bool
    decreases ty,
{
    match ty {
        TypeView::Type(_, _) => depth >= 1,
        TypeView::Tuple(tys, _) => {
            &&& depth >= 1
            &&& forall|i: int|
                0 <= i < tys.len() ==> manglable_within(#[trigger] tys[i], (depth - 1) as nat)
        },
        _ => false,
    }
}

/// Whether the type can be mangled: the grammar has a form for it, and it
/// nests no deeper than `MAX_TYPE_NESTING`.
pub open spec fn manglable(ty: TypeView) -> bool {
    manglable_within(ty, MAX_TYPE_NESTING as nat)
}

/// The node of a type: `V` over its name, or `t` over the nodes of a
/// tuple's members.
pub open spec fn type_node(ty: TypeView) -> NodeView
    recommends
        manglable(ty),
    decreases ty,
{
    match ty {
        TypeView::Tuple(tys, _) => NodeView {
            descriptor: 't',
            child: ChildView::Children(type_nodes(tys)),
        },
        TypeView::Type(name, _) => NodeView { descriptor: 'V', child: ChildView::RawString(name) },
        _ => NodeView { descriptor: 'V', child: ChildView::RawString(Seq::empty()) },
    }
}

/// The node of each type of a run.
pub open spec fn type_nodes(tys: Seq<TypeView>) -> Seq<NodeView>
    decreases tys,
{
    Seq::new(
        tys.len(),
        |i: int|
            if 0 <= i < tys.len() {
                type_node(tys[i])
            } else {
                arbitrary()
            },
    )
}

/// The node of one parameter: `P` over the node of its type.
pub open spec fn param_node(ty: TypeView) -> NodeView {
    NodeView { descriptor: 'P', child: ChildView::Children(seq![type_node(ty)]) }
}

/// The node of an argument list: `A` over the nodes of the parameters.
pub open spec fn args_node(params: Seq<TypeView>) -> NodeView {
    NodeView {
        descriptor: 'A',
        child: ChildView::Children(params.map_values(|ty: TypeView| param_node(ty))),
    }
}

/// The node of a return type: `R` over the node of the type.
pub open spec fn return_node(ty: TypeView) -> NodeView {
    NodeView { descriptor: 'R', child: ChildView::Children(seq![type_node(ty)]) }
}

/// The three-letter code of an operator that can be overloaded.
pub open spec fn opcode(token: TokenType) -> Option<Seq<char>> {
    match token {
        TokenType::ADD => Some("add"@),
        TokenType::SUB => Some("sub"@),
        TokenType::MUL => Some("mul"@),
        TokenType::DIV => Some("div"@),
        TokenType::MOD => Some("mod"@),
        TokenType::DMOD => Some("mdd"@),
        TokenType::GT => Some("grt"@),
        TokenType::LT => Some("lst"@),
        TokenType::GE => Some("get"@),
        TokenType::LE => Some("let"@),
        TokenType::EQ => Some("eqt"@),
        _ => None,
    }
}

/// The node of an operator tag: `O` over the operator's code.
pub open spec fn operator_node(code: Seq<char>) -> NodeView {
    NodeView { descriptor: 'O', child: ChildView::RawString(code) }
}

/// The nodes of a call without its return type: the path, then the argument
/// list.
pub open spec fn call_nodes(names: Seq<Seq<char>>, params: Seq<TypeView>) -> Seq<NodeView> {
    name_nodes(names).push(args_node(params))
}

/// The nodes of a function symbol: the path, the argument list, the return
/// type.
pub open spec fn signature_nodes(names: Seq<Seq<char>>, params: Seq<TypeView>, ret: TypeView) -> Seq<
    NodeView,
> {
    call_nodes(names, params).push(return_node(ret))
}

/// The nodes of an operator overload: the operator tag, then the function
/// symbol.
pub open spec fn overload_nodes(
    code: Seq<char>,
    names: Seq<Seq<char>>,
    params: Seq<TypeView>,
    ret: TypeView,
) -> Seq<NodeView> {
    seq![operator_node(code)] + signature_nodes(names, params, ret)
}

/// The error for a type that cannot be mangled.
pub open spec fn not_manglable_type_error(ty: TypeView) -> ErrorValueView {
    ErrorValueView {
        message: "type cannot be mangled"@,
        error: ErrorType::NotManglable,
        position: ty.pos(),
        mode: ErrorDisplayType::Error,
        annotations: seq![
            ErrorAnnotationView {
                message: Some("no mangled form for `"@ + render_type(ty) + "`"@),
                position: ty.pos(),
                mode: ErrorDisplayType::Error,
            },
        ],
    }
}

/// The error for an operator at `pos` that cannot be overloaded.
pub open spec fn not_manglable_operator_error(pos: Pos) -> ErrorValueView {
    ErrorValueView {
        message: "operator cannot be overloaded"@,
        error: ErrorType::NotManglable,
        position: pos,
        mode: ErrorDisplayType::Error,
        annotations: Seq::<ErrorAnnotationView>::empty(),
    }
}

/// Writes a segment: the descriptor, the length of the payload, the payload.
pub(crate) fn seal(descriptor: &str, body: &str) -> (text: String)
    ensures
        text@ == descriptor@ + decimal(body@.len()) + body@,
{
    let mut text = descriptor.to_owned();
    let length = decimal_string(body.unicode_len());
    text.append(length.as_str());
    text.append(body);
    text
}

impl NameID {
    /// The name as it stands in a mangled symbol: itself.
    pub fn mangle(&self) -> (text: &str)
        ensures
            text@ == self@.value,
    {
        self.value.as_str()
    }
}

impl Namespace {
    /// Mangles the path alone, without any types: one `N` segment for each
    /// name.
    pub fn mangle(&self) -> (text: String)
        ensures
            text@ == mangled_text(name_nodes(self@.names())),
    {
        let ghost names = self@.names();
        let mut text = String::new();
        let mut i: usize = 0;
        proof {
            reveal_strlit("N");
            reveal_strlit("_");
            assert(name_nodes(names.take(0)) =~= Seq::<NodeView>::empty());
            assert(segments(Seq::<NodeView>::empty()) =~= Seq::<Seq<char>>::empty());
        }
        while i < self.scopes.len()
            invariant
                i <= self.scopes.len(),
                names == self@.names(),
                names.len() == self.scopes.len(),
                "N"@ == seq!['N'],
                text@ == mangled_text(name_nodes(names.take(i as int))),
            decreases self.scopes.len() - i,
        {
            if i > 0 {
                text.append("_");
            }
            let name_mangled = self.scopes[i].mangle();
            let part = seal("N", name_mangled);
            text.append(part.as_str());
            proof {
                let so_far = name_nodes(names.take(i as int));
                assert(names[i as int] == name_mangled@);
                assert(name_nodes(names.take(i + 1)) =~= so_far.push(name_node(names[i as int])));
                lemma_text_next(so_far, name_node(names[i as int]));
                assert(text@ =~= mangled_text(name_nodes(names.take(i + 1))));
            }
            i += 1;
        }
        proof {
            assert(names.take(self.scopes.len() as int) == names);
        }
        text
    }
}

/// The index of the first type of a run that cannot be mangled, or the
/// length of the run if each can.
pub open spec fn first_unmanglable(tys: Seq<TypeView>) -> int
    decreases tys.len(),
{
    if tys.len() == 0 {
        0
    } else if !manglable(tys[0]) {
        0
    } else {
        1 + first_unmanglable(tys.drop_first())
    }
}

/// `first_unmanglable` is the one index before which every type can be
/// mangled and at which a type cannot or the run ends.
pub proof fn lemma_first_unmanglable(tys: Seq<TypeView>, k: int)
    requires
        0 <= k <= tys.len(),
        forall|j: int| 0 <= j < k ==> manglable(#[trigger] tys[j]),
        k < tys.len() ==> !manglable(tys[k]),
    ensures
        first_unmanglable(tys) == k,
    decreases tys.len(),
{
    if tys.len() > 0 && k > 0 {
        assert(manglable(tys[0]));
        let rest = tys.drop_first();
        assert forall|j: int| 0 <= j < k - 1 implies manglable(#[trigger] rest[j]) by {
            assert(rest[j] == tys[j + 1]);
        }
        lemma_first_unmanglable(rest, k - 1);
    }
}

/// Builds the error for a type that cannot be mangled.
pub(crate) fn not_manglable_type(ty: &AnnotationType) -> (e: ErrorValue)
    ensures
        e@ == not_manglable_type_error(ty@),
{
    let mut message = "no mangled form for `".to_owned();
    let shown = ty.render();
    message.append(shown.as_str());
    message.append("`");
    let mut annotations: Vec<ErrorAnnotation> = Vec::new();
    annotations.push(ErrorAnnotation::new(Some(message), ty.pos(), ErrorDisplayType::Error));
    let e = ErrorValue::new(
        "type cannot be mangled".to_owned(),
        ErrorType::NotManglable,
        ty.pos(),
        ErrorDisplayType::Error,
        annotations,
    );
    assert(e@.annotations =~= not_manglable_type_error(ty@).annotations);
    e
}

/// The segment of a type, if the grammar has a form for it that nests no
/// deeper than `depth`.
fn mangled_type(ty: &AnnotationType, depth: usize) -> (r: Option<String>)
    ensures
        match r {
            Some(text) => manglable_within(ty@, depth as nat) && text@ == segment(type_node(ty@)),
            None => !manglable_within(ty@, depth as nat),
        },
    decreases ty,
{
    broadcast use group_type_view;
    if depth == 0 {
        return None;
    }
    proof {
        reveal_strlit("V");
        reveal_strlit("t");
        assert("V"@ =~= seq!['V']);
        assert("t"@ =~= seq!['t']);
    }
    match ty {
        AnnotationType::Type(name, _) => Some(seal("V", name.as_str())),
        AnnotationType::Tuple(tys, _) => {
            match mangled_members(tys, depth - 1) {
                Some(body) => Some(seal("t", body.as_str())),
                None => None,
            }
        },
        _ => None,
    }
}

/// The segments of the members of a tuple, joined, if the grammar has a form
/// for each that nests no deeper than `depth`.
fn mangled_members(tys: &Vec<AnnotationType>, depth: usize) -> (r: Option<String>)
    ensures
        match r {
            Some(text) => {
                &&& forall|i: int|
                    0 <= i < tys@.len() ==> manglable_within(
                        #[trigger] type_views(tys@)[i],
                        depth as nat,
                    )
                &&& text@ == mangled_text(type_nodes(type_views(tys@)))
            },
            None => exists|i: int|
                0 <= i < tys@.len() && !manglable_within(
                    #[trigger] type_views(tys@)[i],
                    depth as nat,
                ),
        },
    decreases tys,
{
    let ghost views = type_views(tys@);
    let ghost nodes = type_nodes(views);
    let mut text = String::new();
    let mut i: usize = 0;
    proof {
        assert(segments(nodes.take(0)) =~= Seq::<Seq<char>>::empty());
    }
    while i < tys.len()
        invariant
            i <= tys.len(),
            views == type_views(tys@),
            nodes == type_nodes(views),
            nodes.len() == tys@.len(),
            forall|j: int| 0 <= j < i ==> manglable_within(#[trigger] views[j], depth as nat),
            text@ == mangled_text(nodes.take(i as int)),
        decreases tys.len() - i,
    {
        let part = match mangled_type(&tys[i], depth) {
            Some(part) => part,
            None => {
                assert(!manglable_within(views[i as int], depth as nat));
                return None;
            },
        };
        if i > 0 {
            text.append("_");
        }
        text.append(part.as_str());
        proof {
            assert(nodes[i as int] == type_node(views[i as int]));
            assert(nodes.take(i + 1) =~= nodes.take(i as int).push(nodes[i as int]));
            lemma_text_next(nodes.take(i as int), nodes[i as int]);
        }
        i += 1;
    }
    proof {
        assert(nodes.take(tys.len() as int) == nodes);
    }
    Some(text)
}

impl AnnotationType {
    /// Mangles the type: a named type as a `V` segment over its name, a
    /// tuple as a `t` segment over its members. Any other type has no
    /// mangled form and is an error, and so is a type that nests deeper than
    /// `MAX_TYPE_NESTING`.
    pub fn mangle(&self) -> (r: Result<String, ErrorValue>)
        ensures
            match r {
                Ok(text) => manglable(self@) && text@ == segment(type_node(self@)),
                Err(e) => !manglable(self@) && e@ == not_manglable_type_error(self@),
            },
    {
        match mangled_type(self, MAX_TYPE_NESTING) {
            Some(text) => Ok(text),
            None => Err(not_manglable_type(self)),
        }
    }
}

/// Mangles an argument list: the `A` segment over one `P` segment for each
/// parameter type. The first parameter type that cannot be mangled is an
/// error.
pub fn gen_mangled_args(types: &[AnnotationType]) -> (r: Result<String, ErrorValue>)
    ensures
        match r {
            Ok(text) => {
                &&& first_unmanglable(type_views(types@)) == types@.len()
                &&& text@ == segment(args_node(type_views(types@)))
            },
            Err(e) => {
                &&& first_unmanglable(type_views(types@)) < types@.len()
                &&& e@ == not_manglable_type_error(
                    type_views(types@)[first_unmanglable(type_views(types@))],
                )
            },
        },
{
    let ghost views = type_views(types@);
    let ghost nodes = views.map_values(|ty: TypeView| param_node(ty));
    let mut body = String::new();
    let mut i: usize = 0;
    proof {
        reveal_strlit("P");
        reveal_strlit("A");
        assert("P"@ =~= seq!['P']);
        assert("A"@ =~= seq!['A']);
        assert(segments(nodes.take(0)) =~= Seq::<Seq<char>>::empty());
    }
    while i < types.len()
        invariant
            i <= types.len(),
            views == type_views(types@),
            nodes == views.map_values(|ty: TypeView| param_node(ty)),
            "P"@ == seq!['P'],
            forall|j: int| 0 <= j < i ==> manglable(#[trigger] views[j]),
            body@ == mangled_text(nodes.take(i as int)),
        decreases types.len() - i,
    {
        let arg_mangled = match types[i].mangle() {
            Ok(text) => text,
            Err(e) => {
                proof {
                    lemma_first_unmanglable(views, i as int);
                }
                return Err(e);
            },
        };
        let part = seal("P", arg_mangled.as_str());
        if i > 0 {
            body.append("_");
        }
        body.append(part.as_str());
        proof {
            lemma_text_of_one(type_node(views[i as int]));
            assert(part@ == segment(param_node(views[i as int])));
            assert(nodes.take(i + 1) =~= nodes.take(i as int).push(nodes[i as int]));
            lemma_text_next(nodes.take(i as int), nodes[i as int]);
        }
        i += 1;
    }
    proof {
        assert(nodes.take(types.len() as int) == nodes);
        lemma_first_unmanglable(views, types.len() as int);
    }
    Ok(seal("A", body.as_str()))
}

/// The error that keeps a signature from being mangled: that of the first
/// parameter type that cannot be mangled, else that of the return type.
pub open spec fn signature_error(params: Seq<TypeView>, ret: TypeView) -> Option<ErrorValueView> {
    let k = first_unmanglable(params);
    if k < params.len() {
        Some(not_manglable_type_error(params[k]))
    } else if !manglable(ret) {
        Some(not_manglable_type_error(ret))
    } else {
        None
    }
}

/// Mangles a call without its return type: the path, then the argument list.
pub fn mangle_call(namespace: &Namespace, types: &[AnnotationType]) -> (r: Result<String, ErrorValue>)
    ensures
        match r {
            Ok(text) => {
                &&& first_unmanglable(type_views(types@)) == types@.len()
                &&& text@ == mangled_text(call_nodes(namespace@.names(), type_views(types@)))
            },
            Err(e) => {
                &&& first_unmanglable(type_views(types@)) < types@.len()
                &&& e@ == not_manglable_type_error(
                    type_views(types@)[first_unmanglable(type_views(types@))],
                )
            },
        },
{
    let mut mangled = namespace.mangle();
    let args = gen_mangled_args(types)?;
    if namespace.scopes.len() > 0 {
        mangled.append("_");
    }
    mangled.append(args.as_str());
    proof {
        let names = name_nodes(namespace@.names());
        lemma_text_next(names, args_node(type_views(types@)));
        if names.len() == 0 {
            assert(segments(names) =~= Seq::<Seq<char>>::empty());
            assert(mangled@ =~= args@);
        }
    }
    Ok(mangled)
}

/// Mangles a function symbol: the path, the argument list, the return type.
pub fn mangle_signature(
    namespace: &Namespace,
    types: &[AnnotationType],
    return_type: &AnnotationType,
) -> (r: Result<String, ErrorValue>)
    ensures
        match r {
            Ok(text) => {
                &&& signature_error(type_views(types@), return_type@) is None
                &&& text@ == mangled_text(
                    signature_nodes(namespace@.names(), type_views(types@), return_type@),
                )
            },
            Err(e) => signature_error(type_views(types@), return_type@) == Some(e@),
        },
{
    let mut mangled = mangle_call(namespace, types)?;
    let ret_type_mangled = return_type.mangle()?;
    proof {
        reveal_strlit("R");
        assert("R"@ =~= seq!['R']);
    }
    let ret = seal("R", ret_type_mangled.as_str());
    mangled.append("_");
    mangled.append(ret.as_str());
    proof {
        lemma_text_of_one(type_node(return_type@));
        lemma_text_next(
            call_nodes(namespace@.names(), type_views(types@)),
            return_node(return_type@),
        );
    }
    Ok(mangled)
}

impl TokenType {
    /// Mangles an operator that is being overloaded: the `O` segment over
    /// its code. A token that is no such operator is an error, reported at
    /// `pos`.
    pub fn mangle(&self, pos: Pos) -> (r: Result<String, ErrorValue>)
        ensures
            match r {
                Ok(text) => opcode(*self) matches Some(code) && text@ == segment(operator_node(code)),
                Err(e) => opcode(*self) is None && e@ == not_manglable_operator_error(pos),
            },
    {
        let mangled_op = match self {
            TokenType::SUB => "sub",
            TokenType::ADD => "add",
            TokenType::DIV => "div",
            TokenType::DMOD => "mdd",
            TokenType::MOD => "mod",
            TokenType::MUL => "mul",
            TokenType::GT => "grt",
            TokenType::LT => "lst",
            TokenType::GE => "get",
            TokenType::LE => "let",
            TokenType::EQ => "eqt",
            _ => {
                let e = ErrorValue::new(
                    "operator cannot be overloaded".to_owned(),
                    ErrorType::NotManglable,
                    pos,
                    ErrorDisplayType::Error,
                    Vec::new(),
                );
                assert(e@.annotations =~= Seq::<ErrorAnnotationView>::empty());
                return Err(e);
            },
        };
        proof {
            reveal_strlit("O");
            assert("O"@ =~= seq!['O']);
        }
        Ok(seal("O", mangled_op))
    }
}

} // verus!
