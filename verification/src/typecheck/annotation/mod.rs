//! The type model and the typed tree that inference works on.

pub mod annotation_type;
pub mod typed_ast;

pub use annotation_type::{AnnotationType, Prim, TypeView};
pub use typed_ast::{
    BinderView, BlockView, ExprKindView, ExprView, StmtKindView, StmtView, TypedAssign,
    TypedBinder, TypedBlock, TypedExpr, TypedExprEnum, TypedFunction, TypedFunctionCall, TypedIs,
    TypedLiteral, TypedRefID, TypedReturn, TypedStmt, TypedStmtEnum, TypedTuple, TypedYield,
};
