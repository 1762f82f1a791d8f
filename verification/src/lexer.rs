//! The token kinds that reach the later passes.

use vstd::prelude::*;

verus! {

/// The kind of an operator token.
#[allow(non_camel_case_types)]
#[derive(Debug, Clone, Copy, PartialEq, Eq, Structural)]
pub enum TokenType {
    /// `+`
    ADD,
    /// `-`
    SUB,
    /// `*`
    MUL,
    /// `/`
    DIV,
    /// `%`
    MOD,
    /// `%%`, divisibility
    DMOD,
    /// `>`
    GT,
    /// `<`
    LT,
    /// `>=`
    GE,
    /// `<=`
    LE,
    /// `==`
    EQ,
    /// `!=`
    NE,
    /// `=`
    EQUALS,
    /// `as`
    AS,
    /// `is`
    IS,
}

} // verus!
