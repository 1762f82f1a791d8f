//! The type model: what an expression's type can be while inference is
//! under way, and once it is done.

use crate::helpers::Pos;
use crate::text::join;
use vstd::prelude::*;

verus! {

/// The primitive types that literals can have.
#[derive(Debug, Clone, Copy, PartialEq, Eq, Structural)]
pub enum Prim {
    Bool,
    I16,
    I32,
    I64,
}

/// The inferred or declared type of an expression. Every variant carries the
/// source range it was written at, or inferred for.
#[derive(Debug, PartialEq, Eq)]
pub enum AnnotationType {
    /// A resolved type, primitive or named, by its canonical name.
    Type(String, Pos),
    /// A tuple of types, in order.
    Tuple(Vec<AnnotationType>, Pos),
    /// A function type: parameter types, then the return type.
    Function(Vec<AnnotationType>, Box<AnnotationType>, Pos),
    /// The type without values.
    Never(Pos),
    /// A type not known yet, standing under the id of its type variable.
    Infer(usize, Pos),
}

/// The mathematical content of an [`AnnotationType`].
pub ghost enum TypeView {
    Type(Seq<char>, Pos),
    Tuple(Seq<TypeView>, Pos),
    Function(Seq<TypeView>, Box<TypeView>, Pos),
    Never(Pos),
    Infer(usize, Pos),
}

/// The view of a type, by recursion over its structure. The definition is
/// kept from the solver, which would else unfold it at every type in sight:
/// `group_type_view` says what the view of a type is, form by form.
#[verifier::opaque]
pub open spec fn type_view(ty: AnnotationType) -> TypeView
    decreases ty,
{
    match ty {
        AnnotationType::Type(name, pos) => TypeView::Type(name@, pos),
        AnnotationType::Tuple(tys, pos) => TypeView::Tuple(
            Seq::new(
                tys@.len(),
                |i: int|
                    if 0 <= i < tys@.len() {
                        type_view(tys@[i])
                    } else {
                        arbitrary()
                    },
            ),
            pos,
        ),
        AnnotationType::Function(args, ret, pos) => TypeView::Function(
            Seq::new(
                args@.len(),
                |i: int|
                    if 0 <= i < args@.len() {
                        type_view(args@[i])
                    } else {
                        arbitrary()
                    },
            ),
            Box::new(type_view(*ret)),
            pos,
        ),
        AnnotationType::Never(pos) => TypeView::Never(pos),
        AnnotationType::Infer(id, pos) => TypeView::Infer(id, pos),
    }
}

impl View for AnnotationType {
    type V = TypeView;

    open spec fn view(&self) -> TypeView {
        type_view(*self)
    }
}

/// The views of a run of types, in order.
pub open spec fn type_views(tys: Seq<AnnotationType>) -> Seq<TypeView> {
    tys.map_values(|t: AnnotationType| t@)
}

/// The view of a tuple or function type holds the views of its members.
pub broadcast proof fn lemma_view_members(ty: AnnotationType)
    ensures
        #![trigger ty@]
        ty matches AnnotationType::Tuple(tys, pos) ==> ty@ == TypeView::Tuple(type_views(tys@), pos),
        ty matches AnnotationType::Function(args, ret, pos) ==> ty@ == TypeView::Function(
            type_views(args@),
            Box::new((*ret)@),
            pos,
        ),
{
    reveal_with_fuel(type_view, 1);
    match ty {
        AnnotationType::Tuple(tys, pos) => {
            assert(ty@->Tuple_0 =~= type_views(tys@));
        },
        AnnotationType::Function(args, ret, pos) => {
            assert(ty@->Function_0 =~= type_views(args@));
        },
        _ => {},
    }
}

/// The view of a name, of the empty type and of a type variable.
pub broadcast proof fn lemma_view_leaves(ty: AnnotationType)
    ensures
        #![trigger ty@]
        ty matches AnnotationType::Type(name, pos) ==> ty@ == TypeView::Type(name@, pos),
        ty matches AnnotationType::Never(pos) ==> ty@ == TypeView::Never(pos),
        ty matches AnnotationType::Infer(id, pos) ==> ty@ == TypeView::Infer(id, pos),
{
    reveal_with_fuel(type_view, 1);
}

/// What is known of the view of a type from its outermost form.
pub broadcast group group_type_view {
    lemma_view_members,
    lemma_view_leaves,
}

impl TypeView {
    /// The source range the type carries.
    pub open spec fn pos(self) -> Pos {
        match self {
            TypeView::Type(_, pos) => pos,
            TypeView::Tuple(_, pos) => pos,
            TypeView::Function(_, _, pos) => pos,
            TypeView::Never(pos) => pos,
            TypeView::Infer(_, pos) => pos,
        }
    }

    /// No type variable is left anywhere in the type.
    pub open spec fn resolved(self) -> bool
        decreases self,
    {
        match self {
            TypeView::Type(_, _) => true,
            TypeView::Tuple(tys, _) => forall|i: int|
                0 <= i < tys.len() ==> (#[trigger] tys[i]).resolved(),
            TypeView::Function(args, ret, _) => {
                &&& forall|i: int| 0 <= i < args.len() ==> (#[trigger] args[i]).resolved()
                &&& ret.resolved()
            },
            TypeView::Never(_) => true,
            TypeView::Infer(_, _) => false,
        }
    }
}

/// The primitive that a canonical type name stands for, if any.
pub open spec fn prim_of(name: Seq<char>) -> Option<Prim> {
    if name == "bool"@ {
        Some(Prim::Bool)
    } else if name == "short"@ {
        Some(Prim::I16)
    } else if name == "int"@ {
        Some(Prim::I32)
    } else if name == "long"@ {
        Some(Prim::I64)
    } else {
        None
    }
}

/// How a type is written in a message: a name as it is, a tuple as
/// `(a, b)`, a function as `(a, b) -> r`, the empty type as `!`, and a type
/// still unknown as `_`.
pub open spec fn render_type(ty: TypeView) -> Seq<char>
    decreases ty,
{
    match ty {
        TypeView::Type(name, _) => name,
        TypeView::Tuple(tys, _) => "("@ + join(render_types(tys), ", "@) + ")"@,
        TypeView::Function(args, ret, _) => "("@ + join(render_types(args), ", "@) + ") -> "@
            + render_type(*ret),
        TypeView::Never(_) => "!"@,
        TypeView::Infer(_, _) => "_"@,
    }
}

/// Each type of a run as it is written in a message.
pub open spec fn render_types(tys: Seq<TypeView>) -> Seq<Seq<char>>
    decreases tys,
{
    Seq::new(
        tys.len(),
        |i: int|
            if 0 <= i < tys.len() {
                render_type(tys[i])
            } else {
                arbitrary()
            },
    )
}

/// The primitive that a type is, if it is one.
pub open spec fn prim_of_type(ty: TypeView) -> Option<Prim> {
    match ty {
        TypeView::Type(name, _) => prim_of(name),
        _ => None,
    }
}

impl AnnotationType {
    /// The source range the type carries.
    pub fn pos(&self) -> (pos: Pos)
        ensures
            pos == self@.pos(),
    {
        broadcast use group_type_view;
        match self {
            AnnotationType::Type(_, pos) => *pos,
            AnnotationType::Tuple(_, pos) => *pos,
            AnnotationType::Function(_, _, pos) => *pos,
            AnnotationType::Never(pos) => *pos,
            AnnotationType::Infer(_, pos) => *pos,
        }
    }

    /// Which primitive the type is, if it is one.
    pub fn is_primitive(&self) -> (prim: Option<Prim>)
        ensures
            prim == prim_of_type(self@),
    {
        broadcast use group_type_view;
        match self {
            AnnotationType::Type(name, _) => {
                if *name == "bool".to_owned() {
                    Some(Prim::Bool)
                } else if *name == "short".to_owned() {
                    Some(Prim::I16)
                } else if *name == "int".to_owned() {
                    Some(Prim::I32)
                } else if *name == "long".to_owned() {
                    Some(Prim::I64)
                } else {
                    None
                }
            },
            _ => None,
        }
    }

    /// Whether no type variable is left anywhere in the type.
    pub fn is_resolved(&self) -> (resolved: bool)
        ensures
            resolved == self@.resolved(),
        decreases self,
    {
        broadcast use group_type_view;
        match self {
            AnnotationType::Type(_, _) => true,
            AnnotationType::Tuple(tys, _) => {
                let r = all_resolved(tys);
                assert(self@->Tuple_0 == type_views(tys@));
                assert(r == self@.resolved());
                r
            },
            AnnotationType::Function(args, ret, _) => {
                let r = all_resolved(args) && ret.is_resolved();
                assert(self@->Function_0 == type_views(args@));
                assert(r == self@.resolved());
                r
            },
            AnnotationType::Never(_) => true,
            AnnotationType::Infer(_, _) => false,
        }
    }

    /// The type as it is written in a message.
    pub fn render(&self) -> (text: String)
        ensures
            text@ == render_type(self@),
        decreases self,
    {
        broadcast use group_type_view;
        match self {
            AnnotationType::Type(name, _) => name.clone(),
            AnnotationType::Tuple(tys, _) => {
                let mut text = "(".to_owned();
                let inner = render_list(tys);
                text.append(inner.as_str());
                text.append(")");
                text
            },
            AnnotationType::Function(args, ret, _) => {
                let mut text = "(".to_owned();
                let inner = render_list(args);
                text.append(inner.as_str());
                text.append(") -> ");
                let tail = ret.render();
                text.append(tail.as_str());
                text
            },
            AnnotationType::Never(_) => "!".to_owned(),
            AnnotationType::Infer(_, _) => "_".to_owned(),
        }
    }
}

fn all_resolved(tys: &Vec<AnnotationType>) -> (resolved: bool)
    ensures
        resolved == (forall|i: int| 0 <= i < tys@.len() ==> (#[trigger] type_views(tys@)[i]).resolved()),
    decreases tys,
{
    let mut i: usize = 0;
    while i < tys.len()
        invariant
            i <= tys.len(),
            forall|j: int| 0 <= j < i ==> (#[trigger] type_views(tys@)[j]).resolved(),
        decreases tys.len() - i,
    {
        if !tys[i].is_resolved() {
            assert(!type_views(tys@)[i as int].resolved());
            return false;
        }
        i += 1;
    }
    true
}

/// The types of a run as written in a message, separated by a comma and a
/// space.
fn render_list(tys: &Vec<AnnotationType>) -> (text: String)
    ensures
        text@ == join(render_types(type_views(tys@)), ", "@),
    decreases tys,
{
    let ghost parts = render_types(type_views(tys@));
    let mut text = String::new();
    let mut i: usize = 0;
    while i < tys.len()
        invariant
            i <= tys.len(),
            parts == render_types(type_views(tys@)),
            parts.len() == tys@.len(),
            text@ == join(parts.take(i as int), ", "@),
        decreases tys.len() - i,
    {
        if i > 0 {
            text.append(", ");
        }
        let part = tys[i].render();
        text.append(part.as_str());
        proof {
            assert(parts[i as int] == part@);
            assert(parts.take(i + 1).drop_last() == parts.take(i as int));
            assert(parts.take(i + 1).last() == parts[i as int]);
            if i == 0 {
                assert(parts.take(0).len() == 0);
                assert(text@ =~= part@);
            }
        }
        i += 1;
    }
    proof {
        assert(parts.take(tys.len() as int) == parts);
    }
    text
}

impl Clone for AnnotationType {
    /// A deep copy: the copy shares nothing with the type it was made from,
    /// so editing one never shows in the other.
    fn clone(&self) -> (copy: Self)
        ensures
            copy@ == self@,
        decreases self,
    {
        broadcast use group_type_view;
        match self {
            AnnotationType::Type(name, pos) => AnnotationType::Type(name.clone(), *pos),
            AnnotationType::Tuple(tys, pos) => AnnotationType::Tuple(clone_types(tys), *pos),
            AnnotationType::Function(args, ret, pos) => {
                let r: &AnnotationType = &**ret;
                AnnotationType::Function(clone_types(args), Box::new(r.clone()), *pos)
            },
            AnnotationType::Never(pos) => AnnotationType::Never(*pos),
            AnnotationType::Infer(id, pos) => AnnotationType::Infer(*id, *pos),
        }
    }
}

/// Deep copies of a run of types.
fn clone_types(tys: &Vec<AnnotationType>) -> (copies: Vec<AnnotationType>)
    ensures
        type_views(copies@) == type_views(tys@),
    decreases tys,
{
    let mut copies: Vec<AnnotationType> = Vec::new();
    let mut i: usize = 0;
    while i < tys.len()
        invariant
            i <= tys.len(),
            copies@.len() == i,
            forall|j: int| 0 <= j < i ==> copies@[j]@ == tys@[j]@,
        decreases tys.len() - i,
    {
        copies.push(tys[i].clone());
        i += 1;
    }
    assert(type_views(copies@) =~= type_views(tys@));
    copies
}

} // verus!
