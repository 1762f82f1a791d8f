//! The front-end core of a small statically typed language: source positions,
//! diagnostics, the type model, the substitution pass of type inference, the
//! symbol table, and the mangling of function signatures into flat symbol
//! names together with its inverse.

pub mod ast;
pub mod helpers;
pub mod lexer;
pub mod logger;
pub mod mangle;
pub mod text;
pub mod typecheck;
