//! The symbol table: the functions and types that a unit has declared so
//! far, each under its mangled key.

use super::annotation::annotation_type::{type_views, AnnotationType, TypeView};
use crate::ast::Namespace;
use crate::helpers::Pos;
use crate::logger::{
    ErrorAnnotation, ErrorAnnotationView, ErrorDisplayType, ErrorType, ErrorValue, ErrorValueView,
};
use crate::mangle::signature::{
    mangle_signature, manglable, name_nodes, signature_error, signature_nodes,
};
use crate::mangle::tree::mangled_text;
use crate::text::{same_text, starts_with};
use vstd::prelude::*;

verus! {

/// The signature of a declared function.
#[derive(Debug, PartialEq, Eq)]
pub struct FunctionSignature {
    pub params: Vec<AnnotationType>,
    pub ret: AnnotationType,
    /// Where the function was declared.
    pub pos: Pos,
}

/// What a symbol stands for.
#[derive(Debug, PartialEq, Eq)]
pub enum SymbTabObj {
    Function(FunctionSignature),
    CustomType(AnnotationType),
}

/// The mathematical content of a [`SymbTabObj`].
pub ghost enum EntryView {
    Function { params: Seq<TypeView>, ret: TypeView, pos: Pos },
    CustomType(TypeView),
}

impl EntryView {
    /// Where the symbol was declared.
    pub open spec fn pos(self) -> Pos {
        match self {
            EntryView::Function { params, ret, pos } => pos,
            EntryView::CustomType(ty) => ty.pos(),
        }
    }
}

impl View for FunctionSignature {
    type V = EntryView;

    open spec fn view(&self) -> EntryView {
        EntryView::Function { params: type_views(self.params@), ret: self.ret@, pos: self.pos }
    }
}

impl View for SymbTabObj {
    type V = EntryView;

    open spec fn view(&self) -> EntryView {
        match self {
            SymbTabObj::Function(signature) => signature@,
            SymbTabObj::CustomType(ty) => EntryView::CustomType(ty@),
        }
    }
}

impl FunctionSignature {
    pub fn new(params: Vec<AnnotationType>, ret: AnnotationType, pos: Pos) -> (signature: Self)
        ensures
            signature.params == params,
            signature.ret == ret,
            signature.pos == pos,
    {
        FunctionSignature { params, ret, pos }
    }
}

impl SymbTabObj {
    /// Where the symbol was declared.
    pub fn pos(&self) -> (pos: Pos)
        ensures
            pos == self@.pos(),
    {
        match self {
            SymbTabObj::Function(signature) => signature.pos,
            SymbTabObj::CustomType(ty) => ty.pos(),
        }
    }
}

/// A table as a mathematical object: its keys with their entries, in the
/// order of declaration.
pub type TableView = Seq<(Seq<char>, EntryView)>;

/// The index of the entry under `key`, or the length of the table if there
/// is none.
pub open spec fn index_of_key(table: TableView, key: Seq<char>) -> int
    decreases table.len(),
{
    if table.len() == 0 {
        0
    } else if table[0].0 == key {
        0
    } else {
        1 + index_of_key(table.drop_first(), key)
    }
}

/// Whether some entry stands under `key`.
pub open spec fn has_key(table: TableView, key: Seq<char>) -> bool {
    index_of_key(table, key) < table.len()
}

/// The entries whose key begins with `prefix`, in the order of declaration.
pub open spec fn prefix_matches(table: TableView, prefix: Seq<char>) -> TableView {
    table.filter(|e: (Seq<char>, EntryView)| prefix.is_prefix_of(e.0))
}

/// No key stands twice in the table, and the return type of every function
/// in it can be mangled.
pub open spec fn table_wf(table: TableView) -> bool {
    &&& forall|i: int, j: int|
        0 <= i < j < table.len() ==> (#[trigger] table[i]).0 != (#[trigger] table[j]).0
    &&& forall|i: int|
        0 <= i < table.len() ==> ((#[trigger] table[i]).1 matches EntryView::Function {
            params,
            ret,
            pos,
        } ==> manglable(ret))
}

/// The error for a second declaration at `again` under a key that was
/// declared at `first`.
pub open spec fn duplicate_symbol_error(again: Pos, first: Pos) -> ErrorValueView {
    ErrorValueView {
        message: "symbol is already declared"@,
        error: ErrorType::DuplicateSymbol,
        position: again,
        mode: ErrorDisplayType::Error,
        annotations: seq![
            ErrorAnnotationView {
                message: Some("declared again here"@),
                position: again,
                mode: ErrorDisplayType::Error,
            },
            ErrorAnnotationView {
                message: Some("first declared here"@),
                position: first,
                mode: ErrorDisplayType::Info,
            },
        ],
    }
}

/// The table after the entry `entry` was declared under `key`, or the error
/// if the key is taken.
pub open spec fn with_entry(table: TableView, key: Seq<char>, entry: EntryView) -> Result<
    TableView,
    ErrorValueView,
> {
    if has_key(table, key) {
        Err(duplicate_symbol_error(entry.pos(), table[index_of_key(table, key)].1.pos()))
    } else {
        Ok(table.push((key, entry)))
    }
}

/// The table after a function with the path `names` and the signature
/// `signature` was declared: an error if the signature cannot be mangled or
/// its mangled name is taken, else the table with the function added under
/// its mangled name.
pub open spec fn with_function(table: TableView, names: Seq<Seq<char>>, signature: EntryView) -> Result<
    TableView,
    ErrorValueView,
>
    recommends
        signature is Function,
{
    match signature_error(signature->params, signature->ret) {
        Some(e) => Err(e),
        None => with_entry(
            table,
            mangled_text(signature_nodes(names, signature->params, signature->ret)),
            signature,
        ),
    }
}

/// `index_of_key` is the first index that holds the key, or the length of
/// the table if none does.
pub proof fn lemma_index_of_key(table: TableView, key: Seq<char>)
    ensures
        0 <= index_of_key(table, key) <= table.len(),
        forall|i: int| 0 <= i < index_of_key(table, key) ==> (#[trigger] table[i]).0 != key,
        index_of_key(table, key) < table.len() ==> table[index_of_key(table, key)].0 == key,
    decreases table.len(),
{
    if table.len() > 0 && table[0].0 != key {
        let rest = table.drop_first();
        lemma_index_of_key(rest, key);
        assert forall|i: int| 0 <= i < index_of_key(table, key) implies (#[trigger] table[i]).0
            != key by {
            if i > 0 {
                assert(rest[i - 1] == table[i]);
            }
        }
        if index_of_key(table, key) < table.len() {
            assert(rest[index_of_key(rest, key)] == table[index_of_key(table, key)]);
        }
    }
}

/// The symbols declared so far. Every symbol stands under its mangled key,
/// and no key stands twice.
pub struct TypeCheckSymbTab {
    entries: Vec<(String, SymbTabObj)>,
}

/// The key and the entry of one row as mathematical objects.
pub open spec fn row_view(row: (String, SymbTabObj)) -> (Seq<char>, EntryView) {
    (row.0@, row.1@)
}

impl View for TypeCheckSymbTab {
    type V = TableView;

    closed spec fn view(&self) -> TableView {
        self.entries@.map_values(|row: (String, SymbTabObj)| row_view(row))
    }
}

/// The rows that a lookup handed out, as mathematical objects.
pub open spec fn found_views(found: Seq<(&String, &SymbTabObj)>) -> TableView {
    found.map_values(|row: (&String, &SymbTabObj)| (row.0@, row.1@))
}

impl TypeCheckSymbTab {
    /// What holds of every table: see [`table_wf`].
    #[verifier::type_invariant]
    pub open spec fn wf(self) -> bool {
        table_wf(self@)
    }

    /// The empty table.
    pub fn new() -> (table: Self)
        ensures
            table@ == Seq::<(Seq<char>, EntryView)>::empty(),
    {
        let table = TypeCheckSymbTab { entries: Vec::new() };
        assert(table@ =~= Seq::<(Seq<char>, EntryView)>::empty());
        table
    }

    /// The number of symbols declared.
    pub fn len(&self) -> (n: usize)
        ensures
            n == self@.len(),
    {
        self.entries.len()
    }

    /// The position in the table of the entry under `key`.
    fn find(&self, key: &str) -> (at: usize)
        ensures
            at == index_of_key(self@, key@),
            at <= self@.len(),
    {
        let mut i: usize = 0;
        while i < self.entries.len()
            invariant
                i <= self.entries.len(),
                forall|j: int| 0 <= j < i ==> (#[trigger] self@[j]).0 != key@,
            decreases self.entries.len() - i,
        {
            if same_text(self.entries[i].0.as_str(), key) {
                proof {
                    lemma_index_of_key(self@, key@);
                    let first = index_of_key(self@, key@);
                    assert(self@[i as int].0 == key@);
                    if first < i {
                        assert(self@[first].0 == key@);
                    }
                }
                return i;
            }
            assert(self@[i as int].0 != key@);
            i += 1;
        }
        proof {
            lemma_index_of_key(self@, key@);
            let first = index_of_key(self@, key@);
            if first < i {
                assert(self@[first].0 == key@);
            }
        }
        i
    }

    /// Adds `entry` under `key`, unless the key is taken.
    fn add(&mut self, key: String, entry: SymbTabObj) -> (r: Result<(), ErrorValue>)
        requires
            entry@ matches EntryView::Function { params, ret, pos } ==> manglable(ret),
        ensures
            match r {
                Ok(()) => with_entry(old(self)@, key@, entry@) == Ok::<TableView, ErrorValueView>(
                    final(self)@,
                ),
                Err(e) => with_entry(old(self)@, key@, entry@) == Err::<TableView, ErrorValueView>(
                    e@,
                ) && final(self)@ == old(self)@,
            },
    {
        proof {
            use_type_invariant(&*self);
        }
        let at = self.find(key.as_str());
        if at < self.entries.len() {
            Err(duplicate_symbol(entry.pos(), self.entries[at].1.pos()))
        } else {
            // The rows are edited outside the struct, so that the struct is
            // a table without double keys at every moment.
            let ghost before = self.entries@;
            let mut entries: Vec<(String, SymbTabObj)> = Vec::new();
            core::mem::swap(&mut self.entries, &mut entries);
            entries.push((key, entry));
            proof {
                let rows = entries@.map_values(|row: (String, SymbTabObj)| row_view(row));
                assert(rows =~= old(self)@.push((key@, entry@)));
                lemma_index_of_key(old(self)@, key@);
                assert(table_wf(rows));
            }
            core::mem::swap(&mut self.entries, &mut entries);
            Ok(())
        }
    }

    /// Declares a function: registers `signature` under the mangled name
    /// that the path `namespace` and the signature give. A signature that
    /// cannot be mangled is an error, and so is a mangled name that is
    /// taken; the table then stays as it was.
    pub fn declare(&mut self, namespace: &Namespace, signature: FunctionSignature) -> (r: Result<
        (),
        ErrorValue,
    >)
        ensures
            match r {
                Ok(()) => with_function(old(self)@, namespace@.names(), signature@) == Ok::<
                    TableView,
                    ErrorValueView,
                >(final(self)@),
                Err(e) => with_function(old(self)@, namespace@.names(), signature@) == Err::<
                    TableView,
                    ErrorValueView,
                >(e@) && final(self)@ == old(self)@,
            },
    {
        let key = match mangle_signature(namespace, signature.params.as_slice(), &signature.ret) {
            Ok(key) => key,
            Err(e) => {
                return Err(e);
            },
        };
        self.add(key, SymbTabObj::Function(signature))
    }

    /// Declares a type: registers `definition` under the mangled path
    /// `namespace`. A mangled path that is taken is an error, and the table
    /// then stays as it was.
    pub fn declare_type(&mut self, namespace: &Namespace, definition: AnnotationType) -> (r: Result<
        (),
        ErrorValue,
    >)
        ensures
            match r {
                Ok(()) => with_entry(
                    old(self)@,
                    mangled_text(name_nodes(namespace@.names())),
                    EntryView::CustomType(definition@),
                ) == Ok::<TableView, ErrorValueView>(final(self)@),
                Err(e) => with_entry(
                    old(self)@,
                    mangled_text(name_nodes(namespace@.names())),
                    EntryView::CustomType(definition@),
                ) == Err::<TableView, ErrorValueView>(e@) && final(self)@ == old(self)@,
            },
    {
        let key = namespace.mangle();
        self.add(key, SymbTabObj::CustomType(definition))
    }

    /// The entry that stands under exactly the key `mangled_key`.
    pub fn lookup_exact(&self, mangled_key: &str) -> (entry: Option<&SymbTabObj>)
        ensures
            match entry {
                Some(found) => has_key(self@, mangled_key@) && found@ == self@[index_of_key(
                    self@,
                    mangled_key@,
                )].1,
                None => !has_key(self@, mangled_key@),
            },
    {
        let at = self.find(mangled_key);
        if at < self.entries.len() {
            Some(&self.entries[at].1)
        } else {
            None
        }
    }

    /// Every entry whose key begins with `mangled_prefix`, with its key, in
    /// the order of declaration.
    pub fn lookup_prefix(&self, mangled_prefix: &str) -> (found: Vec<(&String, &SymbTabObj)>)
        ensures
            found_views(found@) == prefix_matches(self@, mangled_prefix@),
    {
        let ghost pred = |e: (Seq<char>, EntryView)| mangled_prefix@.is_prefix_of(e.0);
        let mut found: Vec<(&String, &SymbTabObj)> = Vec::new();
        let mut i: usize = 0;
        proof {
            assert(self@.take(0).filter(pred) == Seq::<(Seq<char>, EntryView)>::empty());
            assert(found_views(found@) =~= Seq::<(Seq<char>, EntryView)>::empty());
        }
        while i < self.entries.len()
            invariant
                i <= self.entries.len(),
                pred == |e: (Seq<char>, EntryView)| mangled_prefix@.is_prefix_of(e.0),
                found_views(found@) == self@.take(i as int).filter(pred),
            decreases self.entries.len() - i,
        {
            let row = &self.entries[i];
            proof {
                assert(self@.take(i + 1) == self@.take(i as int).push(self@[i as int]));
                Seq::lemma_filter_push(self@.take(i as int), self@[i as int], pred);
            }
            if starts_with(row.0.as_str(), mangled_prefix) {
                let ghost before = found@;
                found.push((&row.0, &row.1));
                proof {
                    assert(found_views(found@) =~= found_views(before).push(self@[i as int]));
                }
            }
            i += 1;
        }
        proof {
            assert(self@.take(self.entries.len() as int) == self@);
        }
        found
    }
}

/// Builds the error for a second declaration under a key that is taken.
fn duplicate_symbol(again: Pos, first: Pos) -> (e: ErrorValue)
    ensures
        e@ == duplicate_symbol_error(again, first),
{
    let mut annotations: Vec<ErrorAnnotation> = Vec::new();
    annotations.push(
        ErrorAnnotation::new(Some("declared again here".to_owned()), again, ErrorDisplayType::Error),
    );
    annotations.push(
        ErrorAnnotation::new(Some("first declared here".to_owned()), first, ErrorDisplayType::Info),
    );
    let e = ErrorValue::new(
        "symbol is already declared".to_owned(),
        ErrorType::DuplicateSymbol,
        again,
        ErrorDisplayType::Error,
        annotations,
    );
    assert(e@.annotations =~= duplicate_symbol_error(again, first).annotations);
    e
}

} // verus!
