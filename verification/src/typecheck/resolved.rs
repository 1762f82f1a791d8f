//! What the substitution pass achieves: a tree it went through without error
//! holds no type variable any more, and a tree whose variables are all
//! solved never fails for want of a solution.

use super::annotation::annotation_type::{prim_of_type, Prim, TypeView};
use super::annotation::typed_ast::{BlockView, ExprKindView, ExprView, StmtKindView, StmtView};
use super::substitute::{
    bad_literal_error, first_failure, lemma_first_failure, run_in_order, sub_block, sub_expr,
    sub_exprs, sub_stmt, sub_stmts, sub_type, sub_types, Outcome,
};
use crate::ast::{LiteralType, LiteralView};
use crate::helpers::Pos;
use crate::logger::{ErrorType, ErrorValueView};
use vstd::prelude::*;

verus! {

/// No type variable is left anywhere in the expression.
pub open spec fn expr_resolved(e: ExprView) -> bool
    decreases e,
{
    match e.kind {
        ExprKindView::Tuple { exprs, ty } => {
            &&& ty.resolved()
            &&& forall|i: int| 0 <= i < exprs.len() ==> expr_resolved(#[trigger] exprs[i])
        },
        ExprKindView::Block(block) => block_resolved(block),
        ExprKindView::Is { expr, ty } => ty.resolved() && expr_resolved(*expr),
        ExprKindView::RefID { name, ty } => ty.resolved(),
        ExprKindView::Yield { expr, ty } => ty.resolved() && expr_resolved(*expr),
        ExprKindView::Return { expr, ty } => ty.resolved() && expr_resolved(*expr),
        ExprKindView::Literal { value, ty } => ty.resolved(),
        ExprKindView::Function { ty, block } => ty.resolved() && block_resolved(block),
        ExprKindView::FunctionCall { name, arguments, ty, func_ty } => {
            &&& ty.resolved()
            &&& func_ty.resolved()
            &&& forall|i: int| 0 <= i < arguments.len() ==> expr_resolved(#[trigger] arguments[i])
        },
        ExprKindView::VariableAssign { binder, expr } => binder.ty.resolved() && expr_resolved(*expr),
        ExprKindView::VariableAssignDeclaration { binder, expr } => binder.ty.resolved()
            && expr_resolved(*expr),
    }
}

/// No type variable is left anywhere in the block.
pub open spec fn block_resolved(b: BlockView) -> bool
    decreases b,
{
    &&& b.ty.resolved()
    &&& forall|i: int| 0 <= i < b.stmts.len() ==> stmt_resolved(#[trigger] b.stmts[i])
}

/// No type variable is left anywhere in the statement.
pub open spec fn stmt_resolved(s: StmtView) -> bool
    decreases s,
{
    match s.kind {
        StmtKindView::Tag(_) => true,
        StmtKindView::Expression(e) => expr_resolved(e),
        StmtKindView::VariableDeclaration(binder) => binder.ty.resolved(),
    }
}

/// Every entry of the solution is a resolved type.
pub open spec fn solution_resolved(solved: Map<usize, TypeView>) -> bool {
    forall|id: usize| #[trigger] solved.contains_key(id) ==> solved[id].resolved()
}

/// A run that ended without error was worked on to its end: no member
/// failed, and each member is as its own step left it.
pub proof fn lemma_run_completed<T>(olds: Seq<T>, outcomes: Seq<Outcome<T>>)
    requires
        olds.len() == outcomes.len(),
        run_in_order(olds, outcomes).1 is None,
    ensures
        first_failure(outcomes) == outcomes.len(),
        run_in_order(olds, outcomes).0.len() == olds.len(),
        forall|i: int|
            0 <= i < outcomes.len() ==> (#[trigger] outcomes[i]).1 is None && run_in_order(
                olds,
                outcomes,
            ).0[i] == outcomes[i].0,
{
    lemma_first_failure_bounds(outcomes);
}

/// `first_failure` lies within the run, no step before it failed, and the
/// step at it did.
pub proof fn lemma_first_failure_bounds<T>(outcomes: Seq<Outcome<T>>)
    ensures
        0 <= first_failure(outcomes) <= outcomes.len(),
        forall|j: int| 0 <= j < first_failure(outcomes) ==> (#[trigger] outcomes[j]).1 is None,
        first_failure(outcomes) < outcomes.len() ==> outcomes[first_failure(outcomes)].1 is Some,
    decreases outcomes.len(),
{
    if outcomes.len() > 0 && outcomes[0].1 is None {
        let rest = outcomes.drop_first();
        lemma_first_failure_bounds(rest);
        assert forall|j: int| 0 <= j < first_failure(outcomes) implies (#[trigger] outcomes[j]).1
            is None by {
            if j > 0 {
                assert(rest[j - 1] == outcomes[j]);
            }
        }
        if first_failure(outcomes) < outcomes.len() {
            assert(rest[first_failure(rest)] == outcomes[first_failure(outcomes)]);
        }
    }
}

/// A type that the pass went through without error holds no type variable.
pub proof fn lemma_sub_type_resolves(ty: TypeView, solved: Map<usize, TypeView>)
    requires
        solution_resolved(solved),
        sub_type(ty, solved).1 is None,
    ensures
        sub_type(ty, solved).0.resolved(),
    decreases ty,
{
    reveal_with_fuel(sub_type, 1);
    match ty {
        TypeView::Tuple(tys, pos) => {
            lemma_sub_types_resolve(tys, solved);
        },
        TypeView::Function(args, ret, pos) => {
            lemma_sub_types_resolve(args, solved);
            lemma_sub_type_resolves(*ret, solved);
        },
        _ => {},
    }
}

/// The types of a run that the pass went through without error hold no type
/// variable.
pub proof fn lemma_sub_types_resolve(tys: Seq<TypeView>, solved: Map<usize, TypeView>)
    requires
        solution_resolved(solved),
        run_in_order(tys, sub_types(tys, solved)).1 is None,
    ensures
        run_in_order(tys, sub_types(tys, solved)).0.len() == tys.len(),
        forall|i: int|
            0 <= i < tys.len() ==> (#[trigger] run_in_order(
                tys,
                sub_types(tys, solved),
            ).0[i]).resolved(),
    decreases tys,
{
    reveal_with_fuel(sub_type, 1);
    let outcomes = sub_types(tys, solved);
    lemma_run_completed(tys, outcomes);
    assert forall|i: int| 0 <= i < tys.len() implies (#[trigger] run_in_order(
        tys,
        outcomes,
    ).0[i]).resolved() by {
        assert(outcomes[i] == sub_type(tys[i], solved));
        lemma_sub_type_resolves(tys[i], solved);
    }
}

/// An expression that the pass went through without error holds no type
/// variable.
pub proof fn lemma_sub_expr_resolves(e: ExprView, solved: Map<usize, TypeView>)
    requires
        solution_resolved(solved),
        sub_expr(e, solved).1 is None,
    ensures
        expr_resolved(sub_expr(e, solved).0),
    decreases e,
{
    reveal_with_fuel(sub_expr, 1);
    reveal_with_fuel(sub_block, 1);
    match e.kind {
        ExprKindView::Tuple { exprs, ty } => {
            lemma_sub_type_resolves(ty, solved);
            lemma_sub_exprs_resolve(exprs, solved);
        },
        ExprKindView::Block(block) => {
            lemma_sub_block_resolves(block, solved);
        },
        ExprKindView::Is { expr, ty } => {
            lemma_sub_type_resolves(ty, solved);
            lemma_sub_expr_resolves(*expr, solved);
        },
        ExprKindView::RefID { name, ty } => {
            lemma_sub_type_resolves(ty, solved);
        },
        ExprKindView::Yield { expr, ty } => {
            lemma_sub_type_resolves(ty, solved);
            lemma_sub_expr_resolves(*expr, solved);
        },
        ExprKindView::Return { expr, ty } => {
            lemma_sub_type_resolves(ty, solved);
            lemma_sub_expr_resolves(*expr, solved);
        },
        ExprKindView::Literal { value, ty } => {
            lemma_sub_type_resolves(ty, solved);
        },
        ExprKindView::Function { ty, block } => {
            lemma_sub_type_resolves(ty, solved);
            lemma_sub_block_resolves(block, solved);
        },
        ExprKindView::FunctionCall { name, arguments, ty, func_ty } => {
            lemma_sub_type_resolves(ty, solved);
            lemma_sub_type_resolves(func_ty, solved);
            lemma_sub_exprs_resolve(arguments, solved);
        },
        ExprKindView::VariableAssign { binder, expr } => {
            lemma_sub_type_resolves(binder.ty, solved);
            lemma_sub_expr_resolves(*expr, solved);
        },
        ExprKindView::VariableAssignDeclaration { binder, expr } => {
            lemma_sub_type_resolves(binder.ty, solved);
            lemma_sub_expr_resolves(*expr, solved);
        },
    }
}

/// The expressions of a run that the pass went through without error hold no
/// type variable.
pub proof fn lemma_sub_exprs_resolve(exprs: Seq<ExprView>, solved: Map<usize, TypeView>)
    requires
        solution_resolved(solved),
        run_in_order(exprs, sub_exprs(exprs, solved)).1 is None,
    ensures
        run_in_order(exprs, sub_exprs(exprs, solved)).0.len() == exprs.len(),
        forall|i: int|
            0 <= i < exprs.len() ==> expr_resolved(
                #[trigger] run_in_order(exprs, sub_exprs(exprs, solved)).0[i],
            ),
    decreases exprs,
{
    reveal_with_fuel(sub_expr, 1);
    let outcomes = sub_exprs(exprs, solved);
    lemma_run_completed(exprs, outcomes);
    assert forall|i: int| 0 <= i < exprs.len() implies expr_resolved(
        #[trigger] run_in_order(exprs, outcomes).0[i],
    ) by {
        assert(outcomes[i] == sub_expr(exprs[i], solved));
        lemma_sub_expr_resolves(exprs[i], solved);
    }
}

/// A block that the pass went through without error holds no type variable.
pub proof fn lemma_sub_block_resolves(b: BlockView, solved: Map<usize, TypeView>)
    requires
        solution_resolved(solved),
        sub_block(b, solved).1 is None,
    ensures
        block_resolved(sub_block(b, solved).0),
    decreases b,
{
    reveal_with_fuel(sub_block, 1);
    reveal_with_fuel(sub_stmt, 1);
    lemma_sub_type_resolves(b.ty, solved);
    let outcomes = sub_stmts(b.stmts, solved);
    lemma_run_completed(b.stmts, outcomes);
    assert forall|i: int| 0 <= i < b.stmts.len() implies stmt_resolved(
        #[trigger] run_in_order(b.stmts, outcomes).0[i],
    ) by {
        assert(outcomes[i] == sub_stmt(b.stmts[i], solved));
        lemma_sub_stmt_resolves(b.stmts[i], solved);
    }
}

/// A statement that the pass went through without error holds no type
/// variable.
pub proof fn lemma_sub_stmt_resolves(s: StmtView, solved: Map<usize, TypeView>)
    requires
        solution_resolved(solved),
        sub_stmt(s, solved).1 is None,
    ensures
        stmt_resolved(sub_stmt(s, solved).0),
    decreases s,
{
    reveal_with_fuel(sub_stmt, 1);
    reveal_with_fuel(sub_expr, 1);
    match s.kind {
        StmtKindView::Tag(_) => {},
        StmtKindView::Expression(e) => {
            lemma_sub_expr_resolves(e, solved);
        },
        StmtKindView::VariableDeclaration(binder) => {
            lemma_sub_type_resolves(binder.ty, solved);
        },
    }
}

/// Every type variable in the type has a solution.
pub open spec fn type_solved(ty: TypeView, solved: Map<usize, TypeView>) -> bool
    decreases ty,
{
    match ty {
        TypeView::Type(_, _) => true,
        TypeView::Never(_) => true,
        TypeView::Tuple(tys, _) => forall|i: int|
            0 <= i < tys.len() ==> type_solved(#[trigger] tys[i], solved),
        TypeView::Function(args, ret, _) => {
            &&& forall|i: int| 0 <= i < args.len() ==> type_solved(#[trigger] args[i], solved)
            &&& type_solved(*ret, solved)
        },
        TypeView::Infer(id, _) => solved.contains_key(id),
    }
}

/// Every type variable in the expression has a solution.
pub open spec fn expr_solved(e: ExprView, solved: Map<usize, TypeView>) -> bool
    decreases e,
{
    match e.kind {
        ExprKindView::Tuple { exprs, ty } => {
            &&& type_solved(ty, solved)
            &&& forall|i: int| 0 <= i < exprs.len() ==> expr_solved(#[trigger] exprs[i], solved)
        },
        ExprKindView::Block(block) => block_solved(block, solved),
        ExprKindView::Is { expr, ty } => type_solved(ty, solved) && expr_solved(*expr, solved),
        ExprKindView::RefID { name, ty } => type_solved(ty, solved),
        ExprKindView::Yield { expr, ty } => type_solved(ty, solved) && expr_solved(*expr, solved),
        ExprKindView::Return { expr, ty } => type_solved(ty, solved) && expr_solved(*expr, solved),
        ExprKindView::Literal { value, ty } => type_solved(ty, solved),
        ExprKindView::Function { ty, block } => type_solved(ty, solved) && block_solved(
            block,
            solved,
        ),
        ExprKindView::FunctionCall { name, arguments, ty, func_ty } => {
            &&& type_solved(ty, solved)
            &&& type_solved(func_ty, solved)
            &&& forall|i: int|
                0 <= i < arguments.len() ==> expr_solved(#[trigger] arguments[i], solved)
        },
        ExprKindView::VariableAssign { binder, expr } => type_solved(binder.ty, solved)
            && expr_solved(*expr, solved),
        ExprKindView::VariableAssignDeclaration { binder, expr } => type_solved(binder.ty, solved)
            && expr_solved(*expr, solved),
    }
}

/// Every type variable in the block has a solution.
pub open spec fn block_solved(b: BlockView, solved: Map<usize, TypeView>) -> bool
    decreases b,
{
    &&& type_solved(b.ty, solved)
    &&& forall|i: int| 0 <= i < b.stmts.len() ==> stmt_solved(#[trigger] b.stmts[i], solved)
}

/// Every type variable in the statement has a solution.
pub open spec fn stmt_solved(s: StmtView, solved: Map<usize, TypeView>) -> bool
    decreases s,
{
    match s.kind {
        StmtKindView::Tag(_) => true,
        StmtKindView::Expression(e) => expr_solved(e, solved),
        StmtKindView::VariableDeclaration(binder) => type_solved(binder.ty, solved),
    }
}

/// The only error left to a step whose type variables are all solved is a
/// literal of the wrong type.
pub open spec fn at_worst_bad_literal(error: Option<ErrorValueView>) -> bool {
    error matches Some(e) ==> e.error == ErrorType::BadLiteralType
}

/// The pass goes through a type whose variables are all solved.
pub proof fn lemma_solved_type_passes(ty: TypeView, solved: Map<usize, TypeView>)
    requires
        type_solved(ty, solved),
    ensures
        sub_type(ty, solved).1 is None,
    decreases ty,
{
    reveal_with_fuel(sub_type, 1);
    match ty {
        TypeView::Tuple(tys, pos) => {
            lemma_solved_types_pass(tys, solved);
        },
        TypeView::Function(args, ret, pos) => {
            lemma_solved_types_pass(args, solved);
            lemma_solved_type_passes(*ret, solved);
        },
        _ => {},
    }
}

/// The pass goes through a run of types whose variables are all solved.
pub proof fn lemma_solved_types_pass(tys: Seq<TypeView>, solved: Map<usize, TypeView>)
    requires
        forall|i: int| 0 <= i < tys.len() ==> type_solved(#[trigger] tys[i], solved),
    ensures
        run_in_order(tys, sub_types(tys, solved)).1 is None,
    decreases tys,
{
    reveal_with_fuel(sub_type, 1);
    let outcomes = sub_types(tys, solved);
    assert forall|j: int| 0 <= j < outcomes.len() implies (#[trigger] outcomes[j]).1 is None by {
        assert(outcomes[j] == sub_type(tys[j], solved));
        lemma_solved_type_passes(tys[j], solved);
    }
    lemma_first_failure(outcomes, outcomes.len() as int);
}

/// The pass fails on an expression whose type variables are all solved only
/// for a literal of the wrong type.
pub proof fn lemma_solved_expr_passes(e: ExprView, solved: Map<usize, TypeView>)
    requires
        expr_solved(e, solved),
    ensures
        at_worst_bad_literal(sub_expr(e, solved).1),
    decreases e,
{
    reveal_with_fuel(sub_expr, 1);
    reveal_with_fuel(sub_block, 1);
    match e.kind {
        ExprKindView::Tuple { exprs, ty } => {
            lemma_solved_type_passes(ty, solved);
            lemma_solved_exprs_pass(exprs, solved);
        },
        ExprKindView::Block(block) => {
            lemma_solved_block_passes(block, solved);
        },
        ExprKindView::Is { expr, ty } => {
            lemma_solved_type_passes(ty, solved);
            lemma_solved_expr_passes(*expr, solved);
        },
        ExprKindView::RefID { name, ty } => {
            lemma_solved_type_passes(ty, solved);
        },
        ExprKindView::Yield { expr, ty } => {
            lemma_solved_type_passes(ty, solved);
            lemma_solved_expr_passes(*expr, solved);
        },
        ExprKindView::Return { expr, ty } => {
            lemma_solved_type_passes(ty, solved);
            lemma_solved_expr_passes(*expr, solved);
        },
        ExprKindView::Literal { value, ty } => {
            lemma_solved_type_passes(ty, solved);
        },
        ExprKindView::Function { ty, block } => {
            lemma_solved_type_passes(ty, solved);
            lemma_solved_block_passes(block, solved);
        },
        ExprKindView::FunctionCall { name, arguments, ty, func_ty } => {
            lemma_solved_type_passes(ty, solved);
            lemma_solved_type_passes(func_ty, solved);
            lemma_solved_exprs_pass(arguments, solved);
        },
        ExprKindView::VariableAssign { binder, expr } => {
            lemma_solved_type_passes(binder.ty, solved);
            lemma_solved_expr_passes(*expr, solved);
        },
        ExprKindView::VariableAssignDeclaration { binder, expr } => {
            lemma_solved_type_passes(binder.ty, solved);
            lemma_solved_expr_passes(*expr, solved);
        },
    }
}

/// The pass fails on a run of expressions whose type variables are all
/// solved only for a literal of the wrong type.
pub proof fn lemma_solved_exprs_pass(exprs: Seq<ExprView>, solved: Map<usize, TypeView>)
    requires
        forall|i: int| 0 <= i < exprs.len() ==> expr_solved(#[trigger] exprs[i], solved),
    ensures
        at_worst_bad_literal(run_in_order(exprs, sub_exprs(exprs, solved)).1),
    decreases exprs,
{
    reveal_with_fuel(sub_expr, 1);
    let outcomes = sub_exprs(exprs, solved);
    lemma_first_failure_bounds(outcomes);
    let k = first_failure(outcomes);
    if k < outcomes.len() {
        assert(outcomes[k] == sub_expr(exprs[k], solved));
        lemma_solved_expr_passes(exprs[k], solved);
    }
}

/// The pass fails on a block whose type variables are all solved only for a
/// literal of the wrong type.
pub proof fn lemma_solved_block_passes(b: BlockView, solved: Map<usize, TypeView>)
    requires
        block_solved(b, solved),
    ensures
        at_worst_bad_literal(sub_block(b, solved).1),
    decreases b,
{
    reveal_with_fuel(sub_block, 1);
    reveal_with_fuel(sub_stmt, 1);
    lemma_solved_type_passes(b.ty, solved);
    let outcomes = sub_stmts(b.stmts, solved);
    lemma_first_failure_bounds(outcomes);
    let k = first_failure(outcomes);
    if k < outcomes.len() {
        assert(outcomes[k] == sub_stmt(b.stmts[k], solved));
        lemma_solved_stmt_passes(b.stmts[k], solved);
    }
}

/// The pass fails on a statement whose type variables are all solved only
/// for a literal of the wrong type.
pub proof fn lemma_solved_stmt_passes(s: StmtView, solved: Map<usize, TypeView>)
    requires
        stmt_solved(s, solved),
    ensures
        at_worst_bad_literal(sub_stmt(s, solved).1),
    decreases s,
{
    reveal_with_fuel(sub_stmt, 1);
    reveal_with_fuel(sub_expr, 1);
    match s.kind {
        StmtKindView::Tag(_) => {},
        StmtKindView::Expression(e) => {
            lemma_solved_expr_passes(e, solved);
        },
        StmtKindView::VariableDeclaration(binder) => {
            lemma_solved_type_passes(binder.ty, solved);
        },
    }
}

/// Substitution is total on solved programs: where every type variable of a
/// statement has a solution, and the solutions hold no type variables
/// themselves, the pass either leaves the statement without any type
/// variable, or stops at a literal of the wrong type. It never fails for
/// want of a solution.
pub proof fn theorem_solved_statement_resolves(s: StmtView, solved: Map<usize, TypeView>)
    requires
        solution_resolved(solved),
        stmt_solved(s, solved),
    ensures
        match sub_stmt(s, solved).1 {
            None => stmt_resolved(sub_stmt(s, solved).0),
            Some(e) => e.error == ErrorType::BadLiteralType,
        },
{
    lemma_solved_stmt_passes(s, solved);
    if sub_stmt(s, solved).1 is None {
        lemma_sub_stmt_resolves(s, solved);
    }
}

/// Literals are held to their types. Where the type of a literal resolves to
/// one of the signed integers, a numeric literal passes, and a boolean
/// literal fails with the error for a literal of the wrong type, which
/// reports the resolved type and the place of the literal.
pub proof fn theorem_literal_validation(
    value: LiteralView,
    ty: TypeView,
    pos: Pos,
    solved: Map<usize, TypeView>,
)
    requires
        sub_type(ty, solved).1 is None,
        prim_of_type(sub_type(ty, solved).0) matches Some(prim) && prim != Prim::Bool,
    ensures
        ({
            let literal = ExprView { kind: ExprKindView::Literal { value, ty }, pos };
            let resolved = sub_type(ty, solved).0;
            &&& value.literal_type == LiteralType::Number ==> sub_expr(literal, solved).1 is None
            &&& value.literal_type == LiteralType::Bool ==> sub_expr(literal, solved).1 == Some(
                bad_literal_error(resolved, pos),
            )
            &&& bad_literal_error(resolved, pos).error == ErrorType::BadLiteralType
        }),
{
    reveal_with_fuel(sub_expr, 1);
}

} // verus!
