//! Type inference after parsing: the type model and the typed tree, the
//! solved type variables, the substitution pass, and the symbol table.

pub mod annotation;
pub mod context;
pub mod resolved;
pub mod substitute;
pub mod substitutions;
