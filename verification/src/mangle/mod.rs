//! Name mangling: a function's namespace and signature as one flat
//! identifier, and the way back from such an identifier to a tree.
//!
//! A mangled name is a row of segments joined by `_`. A segment is one
//! descriptor character, the decimal length of its payload, and the payload.
//!
//! | descriptor | payload |
//! |---|---|
//! | `N` | one name of the namespace path |
//! | `V` | the canonical name of a primitive or named type |
//! | `t` | a tuple type: the segments of its members |
//! | `P` | one parameter: the segment of its type |
//! | `A` | the argument list: the `P` segments |
//! | `R` | the return type: the segment of the type |
//! | `O` | an overloaded operator: its three-letter code |
//!
//! A function symbol is, in this order: the operator tag if it overloads
//! one, the names of its path, the argument list, the return type. So
//! `my_func(int, int) -> bool` is `N7my_func_A15P5V3int_P5V3int_R6V4bool`.
//!
//! Segments nest: the payload of a `t`, `P`, `A` or `R` segment holds
//! segments again. Reading refuses a name that nests deeper than
//! `MAX_NESTING`, and writing refuses a type that nests deeper than
//! `MAX_TYPE_NESTING`, which is chosen so that every name that is written
//! can be read.

pub mod demangle;
pub mod from_types;
pub mod roundtrip;
pub mod signature;
pub mod symbol;
pub mod tree;

pub use demangle::MAX_NESTING;
pub use signature::{gen_mangled_args, mangle_call, mangle_signature, MAX_TYPE_NESTING};
pub use tree::{Node, NodeChild};
