//! The plain values that the parser hands to the later passes: names,
//! namespaces and literals.

use crate::helpers::Pos;
use vstd::prelude::*;

verus! {

/// One identifier.
#[derive(Debug, PartialEq, Eq)]
pub struct NameID {
    pub value: String,
    pub pos: Pos,
}

/// The mathematical content of a [`NameID`].
pub ghost struct NameIDView {
    pub value: Seq<char>,
    pub pos: Pos,
}

impl View for NameID {
    type V = NameIDView;

    open spec fn view(&self) -> NameIDView {
        NameIDView { value: self.value@, pos: self.pos }
    }
}

impl NameID {
    pub fn new(value: String, pos: Pos) -> (name: Self)
        ensures
            name.value == value,
            name.pos == pos,
    {
        NameID { value, pos }
    }
}

impl Clone for NameID {
    fn clone(&self) -> (copy: Self)
        ensures
            copy@ == self@,
    {
        NameID { value: self.value.clone(), pos: self.pos }
    }
}

/// A path of identifiers, outermost scope first: `a::b::c`.
#[derive(Debug, PartialEq, Eq)]
pub struct Namespace {
    pub scopes: Vec<NameID>,
    pub pos: Pos,
}

/// The mathematical content of a [`Namespace`].
pub ghost struct NamespaceView {
    pub scopes: Seq<NameIDView>,
    pub pos: Pos,
}

impl View for Namespace {
    type V = NamespaceView;

    open spec fn view(&self) -> NamespaceView {
        NamespaceView { scopes: self.scopes@.map_values(|n: NameID| n@), pos: self.pos }
    }
}

impl NamespaceView {
    /// The identifiers of the path as texts, without their positions.
    pub open spec fn names(self) -> Seq<Seq<char>> {
        self.scopes.map_values(|n: NameIDView| n.value)
    }
}

impl Namespace {
    pub fn new(scopes: Vec<NameID>, pos: Pos) -> (namespace: Self)
        ensures
            namespace.scopes == scopes,
            namespace.pos == pos,
    {
        Namespace { scopes, pos }
    }
}

impl Clone for Namespace {
    fn clone(&self) -> (copy: Self)
        ensures
            copy@ == self@,
    {
        let mut scopes: Vec<NameID> = Vec::new();
        let mut i: usize = 0;
        while i < self.scopes.len()
            invariant
                i <= self.scopes.len(),
                scopes@.len() == i,
                forall|j: int| 0 <= j < i ==> scopes@[j]@ == self.scopes@[j]@,
            decreases self.scopes.len() - i,
        {
            scopes.push(self.scopes[i].clone());
            i += 1;
        }
        assert(scopes@.map_values(|n: NameID| n@) =~= self.scopes@.map_values(|n: NameID| n@));
        Namespace { scopes, pos: self.pos }
    }
}

/// The lexical kind of a literal.
#[derive(Debug, Clone, Copy, PartialEq, Eq, Structural)]
pub enum LiteralType {
    /// `true` or `false`
    Bool,
    /// A run of digits.
    Number,
    /// A quoted text.
    String,
}

/// A literal as written in the source.
#[derive(Debug, PartialEq, Eq)]
pub struct Literal {
    pub value: String,
    pub literal_type: LiteralType,
    pub pos: Pos,
}

/// The mathematical content of a [`Literal`].
pub ghost struct LiteralView {
    pub value: Seq<char>,
    pub literal_type: LiteralType,
    pub pos: Pos,
}

impl View for Literal {
    type V = LiteralView;

    open spec fn view(&self) -> LiteralView {
        LiteralView { value: self.value@, literal_type: self.literal_type, pos: self.pos }
    }
}

impl Literal {
    pub fn new(value: String, literal_type: LiteralType, pos: Pos) -> (literal: Self)
        ensures
            literal.value == value,
            literal.literal_type == literal_type,
            literal.pos == pos,
    {
        Literal { value, literal_type, pos }
    }
}

} // verus!
