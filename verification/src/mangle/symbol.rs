//! The names of function symbols as a call needs them: with the return type
//! given, or left out and found in the symbol table, and the names of
//! operator overloads.

use super::signature::{
    call_nodes, first_unmanglable, lemma_first_unmanglable, mangle_call, mangle_signature,
    manglable, not_manglable_operator_error, not_manglable_type_error, opcode, operator_node,
    overload_nodes, return_node, seal, signature_error, signature_nodes, type_node,
};
use super::tree::{lemma_text_front, lemma_text_next, lemma_text_of_one, mangled_text};
use crate::ast::Namespace;
use crate::helpers::Pos;
use crate::lexer::TokenType;
use crate::logger::{
    ErrorAnnotation, ErrorAnnotationView, ErrorDisplayType, ErrorType, ErrorValue, ErrorValueView,
};
use crate::typecheck::annotation::annotation_type::{
    render_type, type_views, AnnotationType, TypeView,
};
use crate::typecheck::context::{
    found_views, prefix_matches, table_wf, with_function, EntryView, SymbTabObj, TableView,
    TypeCheckSymbTab,
};
use vstd::prelude::*;

verus! {

/// The functions of a table that a call could mean: those whose key begins
/// with `prefix`, in the order of declaration.
pub open spec fn candidates(table: TableView, prefix: Seq<char>) -> Seq<EntryView> {
    prefix_matches(table, prefix).filter(|e: (Seq<char>, EntryView)| e.1 is Function).map_values(
        |e: (Seq<char>, EntryView)| e.1,
    )
}

/// The note that names one candidate of an ambiguous call: its return type,
/// at the place of its declaration.
pub open spec fn candidate_note(candidate: EntryView) -> ErrorAnnotationView
    recommends
        candidate is Function,
{
    ErrorAnnotationView {
        message: Some("possible return type `"@ + render_type(candidate->ret) + "`"@),
        position: candidate.pos(),
        mode: ErrorDisplayType::Info,
    }
}

/// The error for a call at `pos` that left out its return type where
/// several declarations fit: one note for each of them.
pub open spec fn cannot_infer_return_error(pos: Pos, found: Seq<EntryView>) -> ErrorValueView {
    ErrorValueView {
        message: "cannot infer return type"@,
        error: ErrorType::CannotInferReturnType,
        position: pos,
        mode: ErrorDisplayType::Error,
        annotations: found.map_values(|candidate: EntryView| candidate_note(candidate)),
    }
}

/// The mangled name of a call at `pos` that left out its return type. With
/// one declaration that fits, the name is the one that the declaration's
/// return type gives. With none, it is the empty text: the call is
/// unresolved. With several, it is an error.
pub open spec fn elided(
    table: TableView,
    names: Seq<Seq<char>>,
    params: Seq<TypeView>,
    pos: Pos,
) -> Result<Seq<char>, ErrorValueView> {
    let k = first_unmanglable(params);
    if k < params.len() {
        Err(not_manglable_type_error(params[k]))
    } else {
        let found = candidates(table, mangled_text(call_nodes(names, params)));
        if found.len() == 0 {
            Ok(Seq::empty())
        } else if found.len() == 1 {
            Ok(mangled_text(signature_nodes(names, params, found[0]->ret)))
        } else {
            Err(cannot_infer_return_error(pos, found))
        }
    }
}

/// The mangled name of a function symbol, with its return type given or
/// left out.
pub open spec fn mangled_symbol(
    table: TableView,
    names: Seq<Seq<char>>,
    params: Seq<TypeView>,
    ret: Option<TypeView>,
    pos: Pos,
) -> Result<Seq<char>, ErrorValueView> {
    match ret {
        Some(ret) => match signature_error(params, ret) {
            Some(e) => Err(e),
            None => Ok(mangled_text(signature_nodes(names, params, ret))),
        },
        None => elided(table, names, params, pos),
    }
}

/// The mangled name of an operator overload.
pub open spec fn mangled_overload(
    token: TokenType,
    names: Seq<Seq<char>>,
    params: Seq<TypeView>,
    ret: TypeView,
    pos: Pos,
) -> Result<Seq<char>, ErrorValueView> {
    match opcode(token) {
        None => Err(not_manglable_operator_error(pos)),
        Some(code) => match signature_error(params, ret) {
            Some(e) => Err(e),
            None => Ok(mangled_text(overload_nodes(code, names, params, ret))),
        },
    }
}

/// Whether a result carries the text or the error that `expected` says.
pub open spec fn gives(
    r: Result<String, ErrorValue>,
    expected: Result<Seq<char>, ErrorValueView>,
) -> bool {
    match r {
        Ok(text) => expected == Ok::<Seq<char>, ErrorValueView>(text@),
        Err(e) => expected == Err::<Seq<char>, ErrorValueView>(e@),
    }
}

/// The functions among the rows that a lookup handed out.
fn keep_functions<'a>(found: Vec<(&'a String, &'a SymbTabObj)>) -> (functions: Vec<&'a SymbTabObj>)
    ensures
        functions@.map_values(|f: &SymbTabObj| f@) == found_views(found@).filter(
            |e: (Seq<char>, EntryView)| e.1 is Function,
        ).map_values(|e: (Seq<char>, EntryView)| e.1),
        forall|i: int| 0 <= i < functions@.len() ==> (#[trigger] functions@[i]) is Function,
{
    let ghost rows = found_views(found@);
    let ghost pred = |e: (Seq<char>, EntryView)| e.1 is Function;
    let ghost entry = |e: (Seq<char>, EntryView)| e.1;
    let ghost view = |f: &SymbTabObj| f@;
    let mut functions: Vec<&SymbTabObj> = Vec::new();
    let mut i: usize = 0;
    proof {
        assert(rows.take(0).filter(pred) == Seq::<(Seq<char>, EntryView)>::empty());
        assert(functions@.map_values(view) =~= rows.take(0).filter(pred).map_values(entry));
    }
    while i < found.len()
        invariant
            i <= found.len(),
            rows == found_views(found@),
            pred == |e: (Seq<char>, EntryView)| e.1 is Function,
            entry == |e: (Seq<char>, EntryView)| e.1,
            view == |f: &SymbTabObj| f@,
            functions@.map_values(view) == rows.take(i as int).filter(pred).map_values(entry),
            forall|j: int| 0 <= j < functions@.len() ==> (#[trigger] functions@[j]) is Function,
        decreases found.len() - i,
    {
        let row = found[i].1;
        proof {
            assert(rows.take(i + 1) == rows.take(i as int).push(rows[i as int]));
            Seq::lemma_filter_push(rows.take(i as int), rows[i as int], pred);
        }
        match row {
            SymbTabObj::Function(_) => {
                proof {
                    rows.take(i as int).filter(pred).lemma_push_map_commute(entry, rows[i as int]);
                    functions@.lemma_push_map_commute(view, row);
                }
                functions.push(row);
            },
            _ => {},
        }
        i += 1;
    }
    proof {
        assert(rows.take(found.len() as int) == rows);
    }
    functions
}

/// Builds the error for a call at `pos` that left out its return type where
/// several declarations fit.
fn cannot_infer_return(pos: Pos, functions: &Vec<&SymbTabObj>) -> (e: ErrorValue)
    requires
        forall|i: int| 0 <= i < functions@.len() ==> (#[trigger] functions@[i]) is Function,
    ensures
        e@ == cannot_infer_return_error(pos, functions@.map_values(|f: &SymbTabObj| f@)),
{
    let ghost found = functions@.map_values(|f: &SymbTabObj| f@);
    let mut annotations: Vec<ErrorAnnotation> = Vec::new();
    let mut i: usize = 0;
    while i < functions.len()
        invariant
            i <= functions.len(),
            found == functions@.map_values(|f: &SymbTabObj| f@),
            forall|j: int| 0 <= j < functions@.len() ==> (#[trigger] functions@[j]) is Function,
            annotations@.len() == i,
            forall|j: int| 0 <= j < i ==> (#[trigger] annotations@[j])@ == candidate_note(found[j]),
        decreases functions.len() - i,
    {
        match functions[i] {
            SymbTabObj::Function(signature) => {
                let mut message = "possible return type `".to_owned();
                let shown = signature.ret.render();
                message.append(shown.as_str());
                message.append("`");
                annotations.push(
                    ErrorAnnotation::new(Some(message), signature.pos, ErrorDisplayType::Info),
                );
            },
            _ => {
                assert(false);
            },
        }
        i += 1;
    }
    let e = ErrorValue::new(
        "cannot infer return type".to_owned(),
        ErrorType::CannotInferReturnType,
        pos,
        ErrorDisplayType::Error,
        annotations,
    );
    assert(e@.annotations =~= cannot_infer_return_error(pos, found).annotations);
    e
}

impl Namespace {
    /// Mangles a function symbol. With a return type, the name is that of
    /// the signature. Without one, the table is asked for the declarations
    /// that fit the path and the argument types: one gives the name with its
    /// return type, none gives the empty text, and several are an error that
    /// lists them.
    pub fn mangle_types(
        &self,
        types: &[AnnotationType],
        return_type: Option<&AnnotationType>,
        context: &TypeCheckSymbTab,
    ) -> (r: Result<String, ErrorValue>)
        ensures
            gives(
                r,
                mangled_symbol(
                    context@,
                    self@.names(),
                    type_views(types@),
                    match return_type {
                        Some(ret) => Some(ret@),
                        None => None,
                    },
                    self.pos,
                ),
            ),
    {
        match return_type {
            Some(ret) => mangle_signature(self, types, ret),
            None => {
                let mut mangled = mangle_call(self, types)?;
                let found = context.lookup_prefix(mangled.as_str());
                let functions = keep_functions(found);
                if functions.len() == 0 {
                    Ok(String::new())
                } else if functions.len() == 1 {
                    match functions[0] {
                        SymbTabObj::Function(signature) => {
                            proof {
                                use_type_invariant(context);
                                lemma_candidates_declared(context@, mangled@, 0);
                                reveal_strlit("R");
                                assert("R"@ =~= seq!['R']);
                            }
                            let ret_type_mangled = match signature.ret.mangle() {
                                Ok(text) => text,
                                Err(e) => {
                                    return Err(e);
                                },
                            };
                            let ret = seal("R", ret_type_mangled.as_str());
                            mangled.append("_");
                            mangled.append(ret.as_str());
                            proof {
                                lemma_text_of_one(type_node(signature.ret@));
                                lemma_text_next(
                                    call_nodes(self@.names(), type_views(types@)),
                                    return_node(signature.ret@),
                                );
                            }
                            Ok(mangled)
                        },
                        _ => {
                            assert(false);
                            Ok(String::new())
                        },
                    }
                } else {
                    Err(cannot_infer_return(self.pos, &functions))
                }
            },
        }
    }

    /// Mangles the symbol of an operator overload: the operator tag, then
    /// the function symbol.
    pub fn mangle_overload(
        &self,
        types: &[AnnotationType],
        return_type: &AnnotationType,
        token: TokenType,
    ) -> (r: Result<String, ErrorValue>)
        ensures
            gives(
                r,
                mangled_overload(token, self@.names(), type_views(types@), return_type@, self.pos),
            ),
    {
        let mut mangled = token.mangle(self.pos)?;
        let symbol = mangle_signature(self, types, return_type)?;
        mangled.append("_");
        mangled.append(symbol.as_str());
        proof {
            let code = opcode(token)->0;
            let rest = signature_nodes(self@.names(), type_views(types@), return_type@);
            lemma_text_front(operator_node(code), rest);
        }
        Ok(mangled)
    }
}

/// Every candidate is a function of the table, so its return type can be
/// mangled.
pub proof fn lemma_candidates_declared(table: TableView, prefix: Seq<char>, i: int)
    requires
        table_wf(table),
        0 <= i < candidates(table, prefix).len(),
    ensures
        candidates(table, prefix)[i] is Function,
        manglable(candidates(table, prefix)[i]->ret),
{
    let is_function = |e: (Seq<char>, EntryView)| e.1 is Function;
    let begins = |e: (Seq<char>, EntryView)| prefix.is_prefix_of(e.0);
    let fitting = table.filter(begins);
    let rows = fitting.filter(is_function);
    let row = rows[i];
    fitting.lemma_filter_pred(is_function, i);
    assert(rows.contains(row));
    fitting.lemma_filter_contains_rev(is_function, row);
    table.lemma_filter_contains_rev(begins, row);
    let origin = choose|origin: int| 0 <= origin < table.len() && table[origin] == row;
    assert(table[origin].1 is Function);
}

/// Mangling is a function of what is mangled: two results for the same
/// table, path, argument types and return type are the same text, or the
/// same error.
pub proof fn theorem_mangling_deterministic(
    once: Result<String, ErrorValue>,
    again: Result<String, ErrorValue>,
    table: TableView,
    names: Seq<Seq<char>>,
    params: Seq<TypeView>,
    ret: Option<TypeView>,
    pos: Pos,
)
    requires
        gives(once, mangled_symbol(table, names, params, ret, pos)),
        gives(again, mangled_symbol(table, names, params, ret, pos)),
    ensures
        match (once, again) {
            (Ok(first), Ok(second)) => first@ == second@,
            (Err(first), Err(second)) => first@ == second@,
            _ => false,
        },
{
}

/// The name of a call without its return type begins the name of the same
/// call with any return type.
pub proof fn lemma_call_begins_symbol(names: Seq<Seq<char>>, params: Seq<TypeView>, ret: TypeView)
    ensures
        mangled_text(call_nodes(names, params)).is_prefix_of(
            mangled_text(signature_nodes(names, params, ret)),
        ),
{
    let call = mangled_text(call_nodes(names, params));
    let symbol = mangled_text(signature_nodes(names, params, ret));
    lemma_text_next(call_nodes(names, params), return_node(ret));
    assert(symbol.subrange(0, call.len() as int) =~= call);
}

/// Elision succeeds where one declaration fits: a call that left out its
/// return type, with argument types that can be mangled, gets the very name
/// that it gets with the return type of that declaration spelled out.
pub proof fn theorem_elision_agrees(
    table: TableView,
    names: Seq<Seq<char>>,
    params: Seq<TypeView>,
    pos: Pos,
)
    requires
        table_wf(table),
        forall|i: int| 0 <= i < params.len() ==> manglable(#[trigger] params[i]),
        candidates(table, mangled_text(call_nodes(names, params))).len() == 1,
    ensures
        mangled_symbol(table, names, params, None, pos) is Ok,
        mangled_symbol(table, names, params, None, pos) == mangled_symbol(
            table,
            names,
            params,
            Some(candidates(table, mangled_text(call_nodes(names, params)))[0]->ret),
            pos,
        ),
{
    lemma_first_unmanglable(params, params.len() as int);
    lemma_candidates_declared(table, mangled_text(call_nodes(names, params)), 0);
}

/// Ambiguity is detected: after two functions with the same path and the
/// same argument types were declared, in a table where nothing fitted a call
/// to them before, a call that leaves out its return type is refused as
/// ambiguous, with one note for each of the two. (That both declarations
/// were accepted says that their return types differ.)
pub proof fn theorem_ambiguity_detected(
    table: TableView,
    names: Seq<Seq<char>>,
    first: EntryView,
    second: EntryView,
    pos: Pos,
)
    requires
        first is Function,
        second is Function,
        first->params == second->params,
        candidates(table, mangled_text(call_nodes(names, first->params))).len() == 0,
        with_function(table, names, first) is Ok,
        with_function(with_function(table, names, first)->Ok_0, names, second) is Ok,
    ensures
        ({
            let both = with_function(with_function(table, names, first)->Ok_0, names, second)->Ok_0;
            let refused = mangled_symbol(both, names, first->params, None, pos);
            &&& refused is Err
            &&& refused->Err_0.error == ErrorType::CannotInferReturnType
            &&& refused->Err_0.position == pos
            &&& refused->Err_0.annotations == seq![candidate_note(first), candidate_note(second)]
        }),
{
    let params = first->params;
    let prefix = mangled_text(call_nodes(names, params));
    let begins = |e: (Seq<char>, EntryView)| prefix.is_prefix_of(e.0);
    let is_function = |e: (Seq<char>, EntryView)| e.1 is Function;
    let entry = |e: (Seq<char>, EntryView)| e.1;
    let one = with_function(table, names, first)->Ok_0;
    let both = with_function(one, names, second)->Ok_0;
    let row1 = (mangled_text(signature_nodes(names, params, first->ret)), first);
    let row2 = (mangled_text(signature_nodes(names, params, second->ret)), second);
    assert(one == table.push(row1));
    assert(both == one.push(row2));
    lemma_call_begins_symbol(names, params, first->ret);
    lemma_call_begins_symbol(names, params, second->ret);
    // What fits in the table grows by the two rows.
    Seq::lemma_filter_push(table, row1, begins);
    Seq::lemma_filter_push(one, row2, begins);
    let fit0 = table.filter(begins);
    let fit1 = fit0.push(row1);
    let fit2 = fit1.push(row2);
    assert(prefix_matches(both, prefix) == fit2);
    Seq::lemma_filter_push(fit0, row1, is_function);
    Seq::lemma_filter_push(fit1, row2, is_function);
    let none = fit0.filter(is_function);
    assert(none.map_values(entry).len() == 0);
    assert(none =~= Seq::<(Seq<char>, EntryView)>::empty());
    let found = candidates(both, prefix);
    assert(found =~= seq![first, second]);
    // The argument types can be mangled, since the declarations were accepted.
    assert(signature_error(params, first->ret) is None);
    assert(first_unmanglable(params) >= params.len());
    let notes = found.map_values(|candidate: EntryView| candidate_note(candidate));
    assert(notes =~= seq![candidate_note(first), candidate_note(second)]);
}

} // verus!
