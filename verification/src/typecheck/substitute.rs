//! The substitution pass: every type variable in a typed tree is replaced by
//! what unification found for it, and every literal is checked against the
//! type it ended up with.

use super::annotation::annotation_type::{
    group_type_view, prim_of_type, render_type, type_views, AnnotationType, Prim, TypeView,
};
use super::annotation::typed_ast::{
    expr_views, lemma_block_view_members, lemma_expr_view_members, stmt_views, BinderView,
    block_view, expr_view, stmt_view, BlockView, ExprKindView, ExprView, StmtKindView, StmtView,
    TypedBinder, TypedBlock, TypedExpr, TypedExprEnum, TypedStmt, TypedStmtEnum,
};
use super::resolved::{lemma_sub_stmt_resolves, stmt_resolved};
use super::substitutions::Substitutions;
use crate::ast::LiteralType;
use crate::helpers::Pos;
use crate::logger::{
    error_views, ErrorAnnotation, ErrorAnnotationView, ErrorDisplayType, ErrorType, ErrorValue,
    ErrorValueView,
};
use vstd::prelude::*;

verus! {

/// What a step of the pass leaves behind: the node as it now is, and the
/// error that stopped the step, if one did.
pub type Outcome<T> = (T, Option<ErrorValueView>);

/// The error for a type variable without a solution, found at `pos`.
pub open spec fn cannot_infer_error(pos: Pos) -> ErrorValueView {
    ErrorValueView {
        message: "cannot infer type"@,
        error: ErrorType::CannotInfer,
        position: pos,
        mode: ErrorDisplayType::Error,
        annotations: seq![
            ErrorAnnotationView {
                message: Some("type found here"@),
                position: pos,
                mode: ErrorDisplayType::Error,
            },
            ErrorAnnotationView {
                message: Some("help: use `is` operator to annotate type"@),
                position: pos,
                mode: ErrorDisplayType::Info,
            },
        ],
    }
}

/// The error for a literal at `pos` that ended up with the type `ty`, which
/// its lexical kind does not allow.
pub open spec fn bad_literal_error(ty: TypeView, pos: Pos) -> ErrorValueView {
    ErrorValueView {
        message: "invalid literal type"@,
        error: ErrorType::BadLiteralType,
        position: pos,
        mode: ErrorDisplayType::Error,
        annotations: seq![
            ErrorAnnotationView {
                message: Some("invalid type `"@ + render_type(ty) + "`"@),
                position: ty.pos(),
                mode: ErrorDisplayType::Error,
            },
            ErrorAnnotationView {
                message: Some("for this literal"@),
                position: pos,
                mode: ErrorDisplayType::Info,
            },
        ],
    }
}

/// The index of the first step that failed, or the number of steps if none
/// did.
pub open spec fn first_failure<T>(outcomes: Seq<Outcome<T>>) -> int
    decreases outcomes.len(),
{
    if outcomes.len() == 0 {
        0
    } else if outcomes[0].1 is Some {
        0
    } else {
        1 + first_failure(outcomes.drop_first())
    }
}

/// A run of nodes after its members were worked on in order until one
/// failed: the members up to and including the first failure are as their
/// steps left them, the members after it are untouched, and the error is
/// that of the first failure.
pub open spec fn run_in_order<T>(olds: Seq<T>, outcomes: Seq<Outcome<T>>) -> Outcome<Seq<T>>
    recommends
        olds.len() == outcomes.len(),
{
    let k = first_failure(outcomes);
    (
        Seq::new(
            olds.len(),
            |i: int|
                if i <= k {
                    outcomes[i].0
                } else {
                    olds[i]
                },
        ),
        if k < outcomes.len() {
            outcomes[k].1
        } else {
            None
        },
    )
}

/// `first_failure` is the one index before which every step succeeded and at
/// which a step failed or the run ended.
pub proof fn lemma_first_failure<T>(outcomes: Seq<Outcome<T>>, k: int)
    requires
        0 <= k <= outcomes.len(),
        forall|j: int| 0 <= j < k ==> (#[trigger] outcomes[j]).1 is None,
        k < outcomes.len() ==> outcomes[k].1 is Some,
    ensures
        first_failure(outcomes) == k,
    decreases outcomes.len(),
{
    if outcomes.len() > 0 && k > 0 {
        assert(outcomes[0].1 is None);
        let rest = outcomes.drop_first();
        assert forall|j: int| 0 <= j < k - 1 implies (#[trigger] rest[j]).1 is None by {
            assert(rest[j] == outcomes[j + 1]);
        }
        lemma_first_failure(rest, k - 1);
    }
}

/// What the pass makes of a type under the solution `solved`: every type
/// variable met before the first unsolved one is replaced by its solution.
/// The members of a tuple are taken in order, and those of a function type
/// before its return type.
#[verifier::opaque]
pub open spec fn sub_type(ty: TypeView, solved: Map<usize, TypeView>) -> Outcome<TypeView>
    decreases ty,
{
    match ty {
        TypeView::Type(_, _) => (ty, None),
        TypeView::Never(_) => (ty, None),
        TypeView::Tuple(tys, pos) => {
            let members = run_in_order(tys, sub_types(tys, solved));
            (TypeView::Tuple(members.0, pos), members.1)
        },
        TypeView::Function(args, ret, pos) => {
            let members = run_in_order(args, sub_types(args, solved));
            if members.1 is Some {
                (TypeView::Function(members.0, ret, pos), members.1)
            } else {
                let result = sub_type(*ret, solved);
                (TypeView::Function(members.0, Box::new(result.0), pos), result.1)
            }
        },
        TypeView::Infer(id, pos) => {
            if solved.contains_key(id) {
                (solved[id], None)
            } else {
                (ty, Some(cannot_infer_error(pos)))
            }
        },
    }
}

/// The outcome of each type of a run, taken by itself.
pub open spec fn sub_types(tys: Seq<TypeView>, solved: Map<usize, TypeView>) -> Seq<
    Outcome<TypeView>,
>
    decreases tys,
{
    Seq::new(
        tys.len(),
        |i: int|
            if 0 <= i < tys.len() {
                sub_type(tys[i], solved)
            } else {
                arbitrary()
            },
    )
}

/// Whether a literal of the lexical kind `kind` may have the primitive type
/// `prim`: a boolean literal is a `bool`, a numeric literal is one of the
/// signed integers, and nothing else fits.
pub open spec fn literal_fits(prim: Option<Prim>, kind: LiteralType) -> bool {
    match (prim, kind) {
        (Some(Prim::Bool), LiteralType::Bool) => true,
        (Some(Prim::I16), LiteralType::Number) => true,
        (Some(Prim::I32), LiteralType::Number) => true,
        (Some(Prim::I64), LiteralType::Number) => true,
        _ => false,
    }
}

/// What the pass makes of a binder: its type is worked on.
pub open spec fn sub_binder(b: BinderView, solved: Map<usize, TypeView>) -> Outcome<BinderView> {
    let t = sub_type(b.ty, solved);
    (BinderView { name: b.name, ty: t.0, pos: b.pos }, t.1)
}

/// What the pass makes of an expression. The node's own type comes first,
/// then what it holds, in the order written; the walk stops at the first
/// error. A literal is checked against its type once that type is known.
#[verifier::opaque]
pub open spec fn sub_expr(e: ExprView, solved: Map<usize, TypeView>) -> Outcome<ExprView>
    decreases e,
{
    match e.kind {
        ExprKindView::Tuple { exprs, ty } => {
            let t = sub_type(ty, solved);
            if t.1 is Some {
                (ExprView { kind: ExprKindView::Tuple { exprs, ty: t.0 }, pos: e.pos }, t.1)
            } else {
                let members = run_in_order(exprs, sub_exprs(exprs, solved));
                (
                    ExprView { kind: ExprKindView::Tuple { exprs: members.0, ty: t.0 }, pos: e.pos },
                    members.1,
                )
            }
        },
        ExprKindView::Block(block) => {
            let b = sub_block(block, solved);
            (ExprView { kind: ExprKindView::Block(b.0), pos: e.pos }, b.1)
        },
        ExprKindView::Is { expr, ty } => {
            let t = sub_type(ty, solved);
            if t.1 is Some {
                (ExprView { kind: ExprKindView::Is { expr, ty: t.0 }, pos: e.pos }, t.1)
            } else {
                let inner = sub_expr(*expr, solved);
                (
                    ExprView {
                        kind: ExprKindView::Is { expr: Box::new(inner.0), ty: t.0 },
                        pos: e.pos,
                    },
                    inner.1,
                )
            }
        },
        ExprKindView::RefID { name, ty } => {
            let t = sub_type(ty, solved);
            (ExprView { kind: ExprKindView::RefID { name, ty: t.0 }, pos: e.pos }, t.1)
        },
        ExprKindView::Yield { expr, ty } => {
            let t = sub_type(ty, solved);
            if t.1 is Some {
                (ExprView { kind: ExprKindView::Yield { expr, ty: t.0 }, pos: e.pos }, t.1)
            } else {
                let inner = sub_expr(*expr, solved);
                (
                    ExprView {
                        kind: ExprKindView::Yield { expr: Box::new(inner.0), ty: t.0 },
                        pos: e.pos,
                    },
                    inner.1,
                )
            }
        },
        ExprKindView::Return { expr, ty } => {
            let t = sub_type(ty, solved);
            if t.1 is Some {
                (ExprView { kind: ExprKindView::Return { expr, ty: t.0 }, pos: e.pos }, t.1)
            } else {
                let inner = sub_expr(*expr, solved);
                (
                    ExprView {
                        kind: ExprKindView::Return { expr: Box::new(inner.0), ty: t.0 },
                        pos: e.pos,
                    },
                    inner.1,
                )
            }
        },
        ExprKindView::Literal { value, ty } => {
            let t = sub_type(ty, solved);
            (
                ExprView { kind: ExprKindView::Literal { value, ty: t.0 }, pos: e.pos },
                if t.1 is Some {
                    t.1
                } else if literal_fits(prim_of_type(t.0), value.literal_type) {
                    None
                } else {
                    Some(bad_literal_error(t.0, e.pos))
                },
            )
        },
        ExprKindView::Function { ty, block } => {
            let t = sub_type(ty, solved);
            if t.1 is Some {
                (ExprView { kind: ExprKindView::Function { ty: t.0, block }, pos: e.pos }, t.1)
            } else {
                let b = sub_block(block, solved);
                (ExprView { kind: ExprKindView::Function { ty: t.0, block: b.0 }, pos: e.pos }, b.1)
            }
        },
        ExprKindView::FunctionCall { name, arguments, ty, func_ty } => {
            let t = sub_type(ty, solved);
            if t.1 is Some {
                (
                    ExprView {
                        kind: ExprKindView::FunctionCall { name, arguments, ty: t.0, func_ty },
                        pos: e.pos,
                    },
                    t.1,
                )
            } else {
                let f = sub_type(func_ty, solved);
                if f.1 is Some {
                    (
                        ExprView {
                            kind: ExprKindView::FunctionCall { name, arguments, ty: t.0, func_ty: f.0 },
                            pos: e.pos,
                        },
                        f.1,
                    )
                } else {
                    let members = run_in_order(arguments, sub_exprs(arguments, solved));
                    (
                        ExprView {
                            kind: ExprKindView::FunctionCall {
                                name,
                                arguments: members.0,
                                ty: t.0,
                                func_ty: f.0,
                            },
                            pos: e.pos,
                        },
                        members.1,
                    )
                }
            }
        },
        ExprKindView::VariableAssign { binder, expr } => {
            let b = sub_binder(binder, solved);
            if b.1 is Some {
                (ExprView { kind: ExprKindView::VariableAssign { binder: b.0, expr }, pos: e.pos }, b.1)
            } else {
                let inner = sub_expr(*expr, solved);
                (
                    ExprView {
                        kind: ExprKindView::VariableAssign { binder: b.0, expr: Box::new(inner.0) },
                        pos: e.pos,
                    },
                    inner.1,
                )
            }
        },
        ExprKindView::VariableAssignDeclaration { binder, expr } => {
            let b = sub_binder(binder, solved);
            if b.1 is Some {
                (
                    ExprView {
                        kind: ExprKindView::VariableAssignDeclaration { binder: b.0, expr },
                        pos: e.pos,
                    },
                    b.1,
                )
            } else {
                let inner = sub_expr(*expr, solved);
                (
                    ExprView {
                        kind: ExprKindView::VariableAssignDeclaration {
                            binder: b.0,
                            expr: Box::new(inner.0),
                        },
                        pos: e.pos,
                    },
                    inner.1,
                )
            }
        },
    }
}

/// The outcome of each expression of a run, taken by itself.
pub open spec fn sub_exprs(exprs: Seq<ExprView>, solved: Map<usize, TypeView>) -> Seq<
    Outcome<ExprView>,
>
    decreases exprs,
{
    Seq::new(
        exprs.len(),
        |i: int|
            if 0 <= i < exprs.len() {
                sub_expr(exprs[i], solved)
            } else {
                arbitrary()
            },
    )
}

/// What the pass makes of a block: its type first, then its statements in
/// order, until one fails.
#[verifier::opaque]
pub open spec fn sub_block(b: BlockView, solved: Map<usize, TypeView>) -> Outcome<BlockView>
    decreases b,
{
    let t = sub_type(b.ty, solved);
    if t.1 is Some {
        (BlockView { stmts: b.stmts, ty: t.0, pos: b.pos }, t.1)
    } else {
        let members = run_in_order(b.stmts, sub_stmts(b.stmts, solved));
        (BlockView { stmts: members.0, ty: t.0, pos: b.pos }, members.1)
    }
}

/// The outcome of each statement of a run, taken by itself.
pub open spec fn sub_stmts(stmts: Seq<StmtView>, solved: Map<usize, TypeView>) -> Seq<
    Outcome<StmtView>,
>
    decreases stmts,
{
    Seq::new(
        stmts.len(),
        |i: int|
            if 0 <= i < stmts.len() {
                sub_stmt(stmts[i], solved)
            } else {
                arbitrary()
            },
    )
}

/// What the pass makes of a statement: a tag is left alone, an expression is
/// worked on, and so is the binder of a declaration.
#[verifier::opaque]
pub open spec fn sub_stmt(s: StmtView, solved: Map<usize, TypeView>) -> Outcome<StmtView>
    decreases s,
{
    match s.kind {
        StmtKindView::Tag(_) => (s, None),
        StmtKindView::Expression(e) => {
            let r = sub_expr(e, solved);
            (StmtView { kind: StmtKindView::Expression(r.0), pos: s.pos }, r.1)
        },
        StmtKindView::VariableDeclaration(binder) => {
            let b = sub_binder(binder, solved);
            (StmtView { kind: StmtKindView::VariableDeclaration(b.0), pos: s.pos }, b.1)
        },
    }
}

/// Whether a step ended as `outcome` says: no error where it has none, and
/// the error it has where it has one.
pub open spec fn ended_as(r: Result<(), ErrorValue>, error: Option<ErrorValueView>) -> bool {
    match r {
        Ok(()) => error is None,
        Err(e) => error == Some(e@),
    }
}

impl AnnotationType {
    /// Replaces, in place, every type variable of the type by its solution.
    /// The walk stops at the first variable without one and returns the
    /// error for it; what was replaced before stays replaced.
    pub fn sub(&mut self, solved_constraints: &Substitutions) -> (r: Result<(), ErrorValue>)
        ensures
            final(self)@ == sub_type(old(self)@, solved_constraints@).0,
            ended_as(r, sub_type(old(self)@, solved_constraints@).1),
        decreases *old(self),
    {
        broadcast use group_type_view;
        proof {
            reveal_with_fuel(sub_type, 1);
        }
        match self {
            AnnotationType::Type(_, _) => Ok(()),
            AnnotationType::Never(_) => Ok(()),
            AnnotationType::Tuple(tys, _) => sub_in_order(tys, solved_constraints),
            AnnotationType::Function(args_ty, ret_ty, _) => {
                sub_in_order(args_ty, solved_constraints)?;
                let ret: &mut AnnotationType = &mut **ret_ty;
                ret.sub(solved_constraints)
            },
            AnnotationType::Infer(infer_num, pos) => {
                match solved_constraints.get(*infer_num) {
                    Some(ty) => {
                        *self = ty.clone();
                        Ok(())
                    },
                    None => Err(cannot_infer_err(*pos)),
                }
            },
        }
    }
}

/// Runs the pass over the types of a run, in order, until one fails.
fn sub_in_order(tys: &mut Vec<AnnotationType>, solved_constraints: &Substitutions) -> (r: Result<
    (),
    ErrorValue,
>)
    ensures
        type_views(final(tys)@) == run_in_order(
            type_views(old(tys)@),
            sub_types(type_views(old(tys)@), solved_constraints@),
        ).0,
        ended_as(
            r,
            run_in_order(
                type_views(old(tys)@),
                sub_types(type_views(old(tys)@), solved_constraints@),
            ).1,
        ),
    decreases *old(tys),
{
    let ghost before = tys@;
    let ghost olds = type_views(before);
    let ghost outcomes = sub_types(olds, solved_constraints@);
    let n = tys.len();
    let mut i: usize = 0;
    while i < n
        invariant
            i <= n,
            tys@.len() == n,
            before == old(tys)@,
            before.len() == n,
            olds == type_views(before),
            outcomes == sub_types(olds, solved_constraints@),
            forall|j: int|
                0 <= j < i ==> tys@[j]@ == (#[trigger] outcomes[j]).0 && outcomes[j].1 is None,
            forall|j: int| i <= j < n ==> tys@[j] == #[trigger] before[j],
        decreases n - i,
    {
        proof {
            assert(tys@[i as int] == before[i as int]);
            assert(decreases_to!(*old(tys) => before[i as int]));
        }
        let step = tys[i].sub(solved_constraints);
        proof {
            assert(outcomes[i as int] == sub_type(olds[i as int], solved_constraints@)) by {
                reveal_with_fuel(sub_type, 1);
            }
        }
        match step {
            Ok(()) => {},
            Err(e) => {
                proof {
                    lemma_first_failure(outcomes, i as int);
                    assert(type_views(tys@) =~= run_in_order(olds, outcomes).0);
                }
                return Err(e);
            },
        }
        i += 1;
    }
    proof {
        lemma_first_failure(outcomes, n as int);
        assert(type_views(tys@) =~= run_in_order(olds, outcomes).0);
    }
    Ok(())
}

impl TypedBinder {
    /// Runs the pass over the binder's type.
    pub fn substitute(&mut self, solved_constraints: &Substitutions) -> (r: Result<(), ErrorValue>)
        ensures
            final(self)@ == sub_binder(old(self)@, solved_constraints@).0,
            ended_as(r, sub_binder(old(self)@, solved_constraints@).1),
    {
        self.ty.sub(solved_constraints)
    }
}

impl TypedBlock {
    /// Runs the pass over the block: its type, then its statements in order.
    pub fn substitute(&mut self, solved_constraints: &Substitutions) -> (r: Result<(), ErrorValue>)
        ensures
            final(self)@ == sub_block(old(self)@, solved_constraints@).0,
            ended_as(r, sub_block(old(self)@, solved_constraints@).1),
        decreases *old(self),
    {
        broadcast use lemma_block_view_members;
        proof {
            reveal_with_fuel(sub_block, 1);
            reveal_with_fuel(sub_stmt, 1);
        }
        self.ty.sub(solved_constraints)?;
        sub_stmts_in_order(&mut self.stmts, solved_constraints)
    }
}

impl TypedExpr {
    /// Runs the pass over the expression and all it holds, and checks each
    /// literal against the type it ends up with.
    pub fn substitute(&mut self, solved_constraints: &Substitutions) -> (r: Result<(), ErrorValue>)
        ensures
            final(self)@ == sub_expr(old(self)@, solved_constraints@).0,
            ended_as(r, sub_expr(old(self)@, solved_constraints@).1),
        decreases *old(self),
    {
        broadcast use lemma_expr_view_members;
        proof {
            reveal_with_fuel(sub_expr, 1);
            reveal_with_fuel(expr_view, 1);
            reveal_with_fuel(sub_block, 1);
            reveal_with_fuel(block_view, 1);
        }
        let pos = self.pos;
        match &mut self.expr {
            TypedExprEnum::Tuple(tup) => {
                tup.ty.sub(solved_constraints)?;
                sub_exprs_in_order(&mut tup.exprs, solved_constraints)
            },
            TypedExprEnum::Block(block) => block.substitute(solved_constraints),
            TypedExprEnum::Is(is) => {
                is.ty.sub(solved_constraints)?;
                let inner: &mut TypedExpr = &mut *is.expr;
                inner.substitute(solved_constraints)
            },
            TypedExprEnum::RefID(ref_id) => ref_id.ty.sub(solved_constraints),
            TypedExprEnum::Yield(yie) => {
                yie.ty.sub(solved_constraints)?;
                let inner: &mut TypedExpr = &mut *yie.expr;
                inner.substitute(solved_constraints)
            },
            TypedExprEnum::Return(ret) => {
                ret.ty.sub(solved_constraints)?;
                let inner: &mut TypedExpr = &mut *ret.expr;
                inner.substitute(solved_constraints)
            },
            TypedExprEnum::Literal(literal) => {
                literal.ty.sub(solved_constraints)?;
                match (literal.ty.is_primitive(), literal.value.literal_type) {
                    (Some(Prim::Bool), LiteralType::Bool) => Ok(()),
                    (Some(Prim::I16), LiteralType::Number) => Ok(()),
                    (Some(Prim::I32), LiteralType::Number) => Ok(()),
                    (Some(Prim::I64), LiteralType::Number) => Ok(()),
                    (_, _) => Err(bad_literal(&literal.ty, pos)),
                }
            },
            TypedExprEnum::Function(func) => {
                func.ty.sub(solved_constraints)?;
                func.block.substitute(solved_constraints)
            },
            TypedExprEnum::FunctionCall(call) => {
                call.ty.sub(solved_constraints)?;
                call.func_ty.sub(solved_constraints)?;
                sub_exprs_in_order(&mut call.arguments, solved_constraints)
            },
            TypedExprEnum::VariableAssign(var) => {
                var.binder.substitute(solved_constraints)?;
                let inner: &mut TypedExpr = &mut *var.expr;
                inner.substitute(solved_constraints)
            },
            TypedExprEnum::VariableAssignDeclaration(var) => {
                var.binder.substitute(solved_constraints)?;
                let inner: &mut TypedExpr = &mut *var.expr;
                inner.substitute(solved_constraints)
            },
        }
    }
}

impl TypedStmt {
    /// Runs the pass over the statement.
    pub fn substitute(&mut self, solved_constraints: &Substitutions) -> (r: Result<(), ErrorValue>)
        ensures
            final(self)@ == sub_stmt(old(self)@, solved_constraints@).0,
            ended_as(r, sub_stmt(old(self)@, solved_constraints@).1),
        decreases *old(self),
    {
        proof {
            reveal_with_fuel(sub_stmt, 1);
            reveal_with_fuel(stmt_view, 1);
            reveal_with_fuel(sub_expr, 1);
            reveal_with_fuel(expr_view, 1);
        }
        match &mut self.stmt {
            TypedStmtEnum::Tag(_) => Ok(()),
            TypedStmtEnum::Expression(expr) => expr.substitute(solved_constraints),
            TypedStmtEnum::VariableDeclaration(binder) => binder.substitute(solved_constraints),
        }
    }
}

/// The statements of a unit after the pass: each as its own step left it.
pub open spec fn pass_result(stmts: Seq<StmtView>, solved: Map<usize, TypeView>) -> Seq<StmtView> {
    sub_stmts(stmts, solved).map_values(|o: Outcome<StmtView>| o.0)
}

/// The errors of a unit: that of each statement that failed, in the order of
/// the statements.
pub open spec fn pass_errors(stmts: Seq<StmtView>, solved: Map<usize, TypeView>) -> Seq<
    ErrorValueView,
> {
    sub_stmts(stmts, solved).filter(|o: Outcome<StmtView>| o.1 is Some).map_values(
        |o: Outcome<StmtView>| o.1->0,
    )
}

/// Runs the pass over the top-level statements of a unit. Each statement is
/// worked on by itself, whatever became of those before it, and the errors
/// of all that failed come back together. Where none failed, no type
/// variable is left in the unit.
pub fn substitute(stmts: &mut [TypedStmt], solved_constraints: Substitutions) -> (r: Result<
    (),
    Vec<ErrorValue>,
>)
    ensures
        stmt_views(final(stmts)@) == pass_result(stmt_views(old(stmts)@), solved_constraints@),
        match r {
            Ok(()) => pass_errors(stmt_views(old(stmts)@), solved_constraints@).len() == 0,
            Err(errors) => errors@.len() > 0 && error_views(errors@) == pass_errors(
                stmt_views(old(stmts)@),
                solved_constraints@,
            ),
        },
        r is Ok ==> forall|i: int|
            0 <= i < final(stmts)@.len() ==> stmt_resolved(#[trigger] stmt_views(final(stmts)@)[i]),
{
    let ghost before = stmts@;
    let ghost olds = stmt_views(before);
    let ghost outcomes = sub_stmts(olds, solved_constraints@);
    let ghost failed = |o: Outcome<StmtView>| o.1 is Some;
    let ghost error_of = |o: Outcome<StmtView>| o.1->0;
    let mut errors: Vec<ErrorValue> = Vec::new();
    let n = stmts.len();
    let mut i: usize = 0;
    proof {
        assert(outcomes.take(0).filter(failed) == Seq::<Outcome<StmtView>>::empty());
    }
    while i < n
        invariant
            i <= n,
            stmts@.len() == n,
            before == old(stmts)@,
            before.len() == n,
            olds == stmt_views(before),
            outcomes == sub_stmts(olds, solved_constraints@),
            outcomes.len() == n,
            failed == |o: Outcome<StmtView>| o.1 is Some,
            error_of == |o: Outcome<StmtView>| o.1->0,
            forall|j: int| 0 <= j < i ==> stmts@[j]@ == (#[trigger] outcomes[j]).0,
            forall|j: int| i <= j < n ==> stmts@[j] == #[trigger] before[j],
            error_views(errors@) == outcomes.take(i as int).filter(failed).map_values(error_of),
        decreases n - i,
    {
        proof {
            assert(stmts@[i as int] == before[i as int]);
        }
        let step = stmts[i].substitute(&solved_constraints);
        proof {
            assert(outcomes[i as int] == sub_stmt(olds[i as int], solved_constraints@)) by {
                reveal_with_fuel(sub_stmt, 1);
            }
            assert(outcomes.take(i + 1) == outcomes.take(i as int).push(outcomes[i as int]));
            Seq::lemma_filter_push(outcomes.take(i as int), outcomes[i as int], failed);
        }
        match step {
            Ok(()) => {},
            Err(err) => {
                proof {
                    outcomes.take(i as int).filter(failed).lemma_push_map_commute(
                        error_of,
                        outcomes[i as int],
                    );
                    assert(error_views(errors@.push(err)) =~= error_views(errors@).push(err@));
                }
                errors.push(err);
            },
        }
        i += 1;
    }
    proof {
        assert(outcomes.take(n as int) == outcomes);
        assert(stmt_views(stmts@) =~= pass_result(olds, solved_constraints@));
    }
    if errors.len() > 0 {
        Err(errors)
    } else {
        proof {
            use_type_invariant(&solved_constraints);
            assert forall|k: int| 0 <= k < n implies stmt_resolved(#[trigger] stmt_views(stmts@)[k]) by {
                assert(outcomes[k] == sub_stmt(olds[k], solved_constraints@)) by {
                    reveal_with_fuel(sub_stmt, 1);
                }
                if outcomes[k].1 is Some {
                    // A failed statement would have left its error in `errors`.
                    outcomes.lemma_filter_contains(failed, k);
                }
                lemma_sub_stmt_resolves(olds[k], solved_constraints@);
            }
        }
        Ok(())
    }
}

/// Runs the pass over the expressions of a run, in order, until one fails.
fn sub_exprs_in_order(exprs: &mut Vec<TypedExpr>, solved_constraints: &Substitutions) -> (r: Result<
    (),
    ErrorValue,
>)
    ensures
        expr_views(final(exprs)@) == run_in_order(
            expr_views(old(exprs)@),
            sub_exprs(expr_views(old(exprs)@), solved_constraints@),
        ).0,
        ended_as(
            r,
            run_in_order(
                expr_views(old(exprs)@),
                sub_exprs(expr_views(old(exprs)@), solved_constraints@),
            ).1,
        ),
    decreases *old(exprs),
{
    let ghost before = exprs@;
    let ghost olds = expr_views(before);
    let ghost outcomes = sub_exprs(olds, solved_constraints@);
    let n = exprs.len();
    let mut i: usize = 0;
    while i < n
        invariant
            i <= n,
            exprs@.len() == n,
            before == old(exprs)@,
            before.len() == n,
            olds == expr_views(before),
            outcomes == sub_exprs(olds, solved_constraints@),
            forall|j: int|
                0 <= j < i ==> exprs@[j]@ == (#[trigger] outcomes[j]).0 && outcomes[j].1 is None,
            forall|j: int| i <= j < n ==> exprs@[j] == #[trigger] before[j],
        decreases n - i,
    {
        proof {
            assert(exprs@[i as int] == before[i as int]);
            assert(decreases_to!(*old(exprs) => before[i as int]));
        }
        let step = exprs[i].substitute(solved_constraints);
        proof {
            assert(outcomes[i as int] == sub_expr(olds[i as int], solved_constraints@)) by {
                reveal_with_fuel(sub_expr, 1);
            }
        }
        match step {
            Ok(()) => {},
            Err(e) => {
                proof {
                    lemma_first_failure(outcomes, i as int);
                    assert(expr_views(exprs@) =~= run_in_order(olds, outcomes).0);
                }
                return Err(e);
            },
        }
        i += 1;
    }
    proof {
        lemma_first_failure(outcomes, n as int);
        assert(expr_views(exprs@) =~= run_in_order(olds, outcomes).0);
    }
    Ok(())
}

/// Runs the pass over the statements of a run, in order, until one fails.
fn sub_stmts_in_order(stmts: &mut Vec<TypedStmt>, solved_constraints: &Substitutions) -> (r: Result<
    (),
    ErrorValue,
>)
    ensures
        stmt_views(final(stmts)@) == run_in_order(
            stmt_views(old(stmts)@),
            sub_stmts(stmt_views(old(stmts)@), solved_constraints@),
        ).0,
        ended_as(
            r,
            run_in_order(
                stmt_views(old(stmts)@),
                sub_stmts(stmt_views(old(stmts)@), solved_constraints@),
            ).1,
        ),
    decreases *old(stmts),
{
    let ghost before = stmts@;
    let ghost olds = stmt_views(before);
    let ghost outcomes = sub_stmts(olds, solved_constraints@);
    let n = stmts.len();
    let mut i: usize = 0;
    while i < n
        invariant
            i <= n,
            stmts@.len() == n,
            before == old(stmts)@,
            before.len() == n,
            olds == stmt_views(before),
            outcomes == sub_stmts(olds, solved_constraints@),
            forall|j: int|
                0 <= j < i ==> stmts@[j]@ == (#[trigger] outcomes[j]).0 && outcomes[j].1 is None,
            forall|j: int| i <= j < n ==> stmts@[j] == #[trigger] before[j],
        decreases n - i,
    {
        proof {
            assert(stmts@[i as int] == before[i as int]);
            assert(decreases_to!(*old(stmts) => before[i as int]));
        }
        let step = stmts[i].substitute(solved_constraints);
        proof {
            assert(outcomes[i as int] == sub_stmt(olds[i as int], solved_constraints@)) by {
                reveal_with_fuel(sub_stmt, 1);
            }
        }
        match step {
            Ok(()) => {},
            Err(e) => {
                proof {
                    lemma_first_failure(outcomes, i as int);
                    assert(stmt_views(stmts@) =~= run_in_order(olds, outcomes).0);
                }
                return Err(e);
            },
        }
        i += 1;
    }
    proof {
        lemma_first_failure(outcomes, n as int);
        assert(stmt_views(stmts@) =~= run_in_order(olds, outcomes).0);
    }
    Ok(())
}

/// Builds the error for a type variable without a solution, found at `pos`.
pub fn cannot_infer_err(pos: Pos) -> (e: ErrorValue)
    ensures
        e@ == cannot_infer_error(pos),
{
    let mut annotations: Vec<ErrorAnnotation> = Vec::new();
    annotations.push(
        ErrorAnnotation::new(Some("type found here".to_owned()), pos, ErrorDisplayType::Error),
    );
    annotations.push(
        ErrorAnnotation::new(
            Some("help: use `is` operator to annotate type".to_owned()),
            pos,
            ErrorDisplayType::Info,
        ),
    );
    let e = ErrorValue::new(
        "cannot infer type".to_owned(),
        ErrorType::CannotInfer,
        pos,
        ErrorDisplayType::Error,
        annotations,
    );
    assert(e@.annotations =~= cannot_infer_error(pos).annotations);
    e
}

/// Builds the error for a literal at `pos` that ended up with the type `ty`.
pub fn bad_literal(ty: &AnnotationType, pos: Pos) -> (e: ErrorValue)
    ensures
        e@ == bad_literal_error(ty@, pos),
{
    let mut message = "invalid type `".to_owned();
    let shown = ty.render();
    message.append(shown.as_str());
    message.append("`");
    let mut annotations: Vec<ErrorAnnotation> = Vec::new();
    annotations.push(ErrorAnnotation::new(Some(message), ty.pos(), ErrorDisplayType::Error));
    annotations.push(
        ErrorAnnotation::new(Some("for this literal".to_owned()), pos, ErrorDisplayType::Info),
    );
    let e = ErrorValue::new(
        "invalid literal type".to_owned(),
        ErrorType::BadLiteralType,
        pos,
        ErrorDisplayType::Error,
        annotations,
    );
    assert(e@.annotations =~= bad_literal_error(ty@, pos).annotations);
    e
}

} // verus!
