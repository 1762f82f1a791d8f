//! The typed tree: every expression with the type that inference has, so
//! far, found for it.

use super::annotation_type::{AnnotationType, TypeView};
use crate::ast::{Literal, LiteralView, NameID, NameIDView, Namespace, NamespaceView};
use crate::helpers::Pos;
use vstd::prelude::*;

verus! {

/// A name being bound, with its type.
#[derive(Debug, PartialEq, Eq)]
pub struct TypedBinder {
    pub name: Namespace,
    pub ty: AnnotationType,
    pub pos: Pos,
}

/// `(a, b, c)`
#[derive(Debug, PartialEq, Eq)]
pub struct TypedTuple {
    pub exprs: Vec<TypedExpr>,
    pub ty: AnnotationType,
}

/// `{ statement; statement; ... }`
#[derive(Debug, PartialEq, Eq)]
pub struct TypedBlock {
    pub stmts: Vec<TypedStmt>,
    pub ty: AnnotationType,
    pub pos: Pos,
}

/// `expression is type`
#[derive(Debug, PartialEq, Eq)]
pub struct TypedIs {
    pub expr: Box<TypedExpr>,
    pub ty: AnnotationType,
}

/// A reference to a variable.
#[derive(Debug, PartialEq, Eq)]
pub struct TypedRefID {
    pub name: Namespace,
    pub ty: AnnotationType,
}

/// `yield expression`
#[derive(Debug, PartialEq, Eq)]
pub struct TypedYield {
    pub expr: Box<TypedExpr>,
    pub ty: AnnotationType,
}

/// `return expression`
#[derive(Debug, PartialEq, Eq)]
pub struct TypedReturn {
    pub expr: Box<TypedExpr>,
    pub ty: AnnotationType,
}

/// A literal with the type it is used at.
#[derive(Debug, PartialEq, Eq)]
pub struct TypedLiteral {
    pub value: Literal,
    pub ty: AnnotationType,
}

/// A function definition: its type and its body.
#[derive(Debug, PartialEq, Eq)]
pub struct TypedFunction {
    pub ty: AnnotationType,
    pub block: TypedBlock,
}

/// A call: the type of the result, the type of the callee, the arguments.
#[derive(Debug, PartialEq, Eq)]
pub struct TypedFunctionCall {
    pub name: Namespace,
    pub arguments: Vec<TypedExpr>,
    pub ty: AnnotationType,
    pub func_ty: AnnotationType,
}

/// An assignment, with or without the declaration of the variable.
#[derive(Debug, PartialEq, Eq)]
pub struct TypedAssign {
    pub binder: TypedBinder,
    pub expr: Box<TypedExpr>,
}

/// The forms of expression.
#[derive(Debug, PartialEq, Eq)]
pub enum TypedExprEnum {
    Tuple(TypedTuple),
    Block(TypedBlock),
    Is(TypedIs),
    RefID(TypedRefID),
    Yield(TypedYield),
    Return(TypedReturn),
    Literal(TypedLiteral),
    Function(TypedFunction),
    FunctionCall(TypedFunctionCall),
    VariableAssign(TypedAssign),
    VariableAssignDeclaration(TypedAssign),
}

/// An expression and where it stands.
#[derive(Debug, PartialEq, Eq)]
pub struct TypedExpr {
    pub expr: TypedExprEnum,
    pub pos: Pos,
}

/// The forms of statement.
#[derive(Debug, PartialEq, Eq)]
pub enum TypedStmtEnum {
    Expression(TypedExpr),
    VariableDeclaration(TypedBinder),
    Tag(NameID),
}

/// A statement and where it stands.
#[derive(Debug, PartialEq, Eq)]
pub struct TypedStmt {
    pub stmt: TypedStmtEnum,
    pub pos: Pos,
}

/// The mathematical content of a [`TypedBinder`].
pub ghost struct BinderView {
    pub name: NamespaceView,
    pub ty: TypeView,
    pub pos: Pos,
}

/// The mathematical content of a [`TypedExprEnum`].
pub ghost enum ExprKindView {
    Tuple { exprs: Seq<ExprView>, ty: TypeView },
    Block(BlockView),
    Is { expr: Box<ExprView>, ty: TypeView },
    RefID { name: NamespaceView, ty: TypeView },
    Yield { expr: Box<ExprView>, ty: TypeView },
    Return { expr: Box<ExprView>, ty: TypeView },
    Literal { value: LiteralView, ty: TypeView },
    Function { ty: TypeView, block: BlockView },
    FunctionCall { name: NamespaceView, arguments: Seq<ExprView>, ty: TypeView, func_ty: TypeView },
    VariableAssign { binder: BinderView, expr: Box<ExprView> },
    VariableAssignDeclaration { binder: BinderView, expr: Box<ExprView> },
}

/// The mathematical content of a [`TypedExpr`].
pub ghost struct ExprView {
    pub kind: ExprKindView,
    pub pos: Pos,
}

/// The mathematical content of a [`TypedBlock`].
pub ghost struct BlockView {
    pub stmts: Seq<StmtView>,
    pub ty: TypeView,
    pub pos: Pos,
}

/// The mathematical content of a [`TypedStmtEnum`].
pub ghost enum StmtKindView {
    Expression(ExprView),
    VariableDeclaration(BinderView),
    Tag(NameIDView),
}

/// The mathematical content of a [`TypedStmt`].
pub ghost struct StmtView {
    pub kind: StmtKindView,
    pub pos: Pos,
}

impl View for TypedBinder {
    type V = BinderView;

    open spec fn view(&self) -> BinderView {
        BinderView { name: self.name@, ty: self.ty@, pos: self.pos }
    }
}

/// The view of an expression, by recursion over its structure. The
/// definition is kept from the solver; `lemma_expr_view_members` and
/// `reveal_with_fuel` bring it in where it is needed.
#[verifier::opaque]
pub open spec fn expr_view(e: TypedExpr) -> ExprView
    decreases e,
{
    ExprView {
        kind: match e.expr {
            TypedExprEnum::Tuple(tup) => ExprKindView::Tuple {
                exprs: Seq::new(
                    tup.exprs@.len(),
                    |i: int|
                        if 0 <= i < tup.exprs@.len() {
                            expr_view(tup.exprs@[i])
                        } else {
                            arbitrary()
                        },
                ),
                ty: tup.ty@,
            },
            TypedExprEnum::Block(block) => ExprKindView::Block(block_view(block)),
            TypedExprEnum::Is(is) => ExprKindView::Is {
                expr: Box::new(expr_view(*is.expr)),
                ty: is.ty@,
            },
            TypedExprEnum::RefID(ref_id) => ExprKindView::RefID { name: ref_id.name@, ty: ref_id.ty@ },
            TypedExprEnum::Yield(yie) => ExprKindView::Yield {
                expr: Box::new(expr_view(*yie.expr)),
                ty: yie.ty@,
            },
            TypedExprEnum::Return(ret) => ExprKindView::Return {
                expr: Box::new(expr_view(*ret.expr)),
                ty: ret.ty@,
            },
            TypedExprEnum::Literal(literal) => ExprKindView::Literal {
                value: literal.value@,
                ty: literal.ty@,
            },
            TypedExprEnum::Function(func) => ExprKindView::Function {
                ty: func.ty@,
                block: block_view(func.block),
            },
            TypedExprEnum::FunctionCall(call) => ExprKindView::FunctionCall {
                name: call.name@,
                arguments: Seq::new(
                    call.arguments@.len(),
                    |i: int|
                        if 0 <= i < call.arguments@.len() {
                            expr_view(call.arguments@[i])
                        } else {
                            arbitrary()
                        },
                ),
                ty: call.ty@,
                func_ty: call.func_ty@,
            },
            TypedExprEnum::VariableAssign(var) => ExprKindView::VariableAssign {
                binder: var.binder@,
                expr: Box::new(expr_view(*var.expr)),
            },
            TypedExprEnum::VariableAssignDeclaration(var) => ExprKindView::VariableAssignDeclaration {
                binder: var.binder@,
                expr: Box::new(expr_view(*var.expr)),
            },
        },
        pos: e.pos,
    }
}

/// The view of a block, by recursion over its structure.
#[verifier::opaque]
pub open spec fn block_view(b: TypedBlock) -> BlockView
    decreases b,
{
    BlockView {
        stmts: Seq::new(
            b.stmts@.len(),
            |i: int|
                if 0 <= i < b.stmts@.len() {
                    stmt_view(b.stmts@[i])
                } else {
                    arbitrary()
                },
        ),
        ty: b.ty@,
        pos: b.pos,
    }
}

/// The view of a statement, by recursion over its structure.
#[verifier::opaque]
pub open spec fn stmt_view(s: TypedStmt) -> StmtView
    decreases s,
{
    StmtView {
        kind: match s.stmt {
            TypedStmtEnum::Expression(e) => StmtKindView::Expression(expr_view(e)),
            TypedStmtEnum::VariableDeclaration(binder) => StmtKindView::VariableDeclaration(binder@),
            TypedStmtEnum::Tag(tag) => StmtKindView::Tag(tag@),
        },
        pos: s.pos,
    }
}

impl View for TypedExpr {
    type V = ExprView;

    open spec fn view(&self) -> ExprView {
        expr_view(*self)
    }
}

impl View for TypedBlock {
    type V = BlockView;

    open spec fn view(&self) -> BlockView {
        block_view(*self)
    }
}

impl View for TypedStmt {
    type V = StmtView;

    open spec fn view(&self) -> StmtView {
        stmt_view(*self)
    }
}

/// The views of a run of expressions, in order.
pub open spec fn expr_views(exprs: Seq<TypedExpr>) -> Seq<ExprView> {
    exprs.map_values(|e: TypedExpr| e@)
}

/// The views of a run of statements, in order.
pub open spec fn stmt_views(stmts: Seq<TypedStmt>) -> Seq<StmtView> {
    stmts.map_values(|s: TypedStmt| s@)
}

/// The view of a tuple or of a call holds the views of its members.
pub broadcast proof fn lemma_expr_view_members(e: TypedExpr)
    ensures
        #![trigger e@]
        e.expr matches TypedExprEnum::Tuple(tup) ==> e@.kind == (ExprKindView::Tuple {
            exprs: expr_views(tup.exprs@),
            ty: tup.ty@,
        }),
        e.expr matches TypedExprEnum::FunctionCall(call) ==> e@.kind == (ExprKindView::FunctionCall {
            name: call.name@,
            arguments: expr_views(call.arguments@),
            ty: call.ty@,
            func_ty: call.func_ty@,
        }),
{
    reveal_with_fuel(expr_view, 1);
    match e.expr {
        TypedExprEnum::Tuple(tup) => {
            assert(e@.kind->Tuple_exprs =~= expr_views(tup.exprs@));
        },
        TypedExprEnum::FunctionCall(call) => {
            assert(e@.kind->FunctionCall_arguments =~= expr_views(call.arguments@));
        },
        _ => {},
    }
}

/// The view of a block holds the views of its statements.
pub broadcast proof fn lemma_block_view_members(b: TypedBlock)
    ensures
        #[trigger] b@ == (BlockView { stmts: stmt_views(b.stmts@), ty: b.ty@, pos: b.pos }),
{
    reveal_with_fuel(block_view, 1);
    reveal_with_fuel(stmt_view, 1);
    assert(b@.stmts =~= stmt_views(b.stmts@));
}

} // verus!
