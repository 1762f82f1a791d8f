//! Reading back what was written: demangling the mangled name of a tree
//! gives the tree again, for every tree whose texts the reader can tell from
//! the lengths before them and from rows of segments.

use super::demangle::{
    digits_end, digits_value, lemma_digits_end, lemma_digits_end_skips, parse_child, parse_from,
    parse_name, Parsed, MAX_NESTING,
};
use super::signature::{
    args_node, manglable, manglable_within, name_node, opcode, operator_node, overload_nodes,
    param_node, return_node, signature_nodes, type_node, type_nodes, MAX_TYPE_NESTING,
};
use super::tree::{
    lemma_text_front, lemma_text_next, lemma_text_of_one, mangled_text, payload, segment,
    segments, ChildView, NodeView,
};
use crate::lexer::TokenType;
use crate::text::{decimal, is_digit, lemma_decimal_digits};
use crate::typecheck::annotation::annotation_type::TypeView;
use vstd::prelude::*;

verus! {

/// A text that reads back as a raw text and can follow a length: it is not
/// empty, its first character is no digit, and neither is its second, if it
/// has one.
pub open spec fn readable_leaf(s: Seq<char>) -> bool {
    &&& s.len() >= 1
    &&& !is_digit(s[0])
    &&& s.len() >= 2 ==> !is_digit(s[1])
}

/// A node whose segment reads back as the node where segments may still
/// nest `depth` deep. Its payload is no longer than a `usize` can say; a
/// text in it is a readable leaf; nodes in it are a readable row, one level
/// deeper, whose first descriptor is no digit.
pub open spec fn readable_node(n: NodeView, depth: nat) -> bool
    decreases n,
{
    &&& depth >= 1
    &&& payload(n.child).len() <= usize::MAX
    &&& match n.child {
        ChildView::RawString(s) => readable_leaf(s),
        ChildView::Children(nodes) => {
            &&& readable(nodes, (depth - 1) as nat)
            &&& nodes.len() > 0 ==> !is_digit(nodes[0].descriptor)
        },
    }
}

/// A row of siblings whose text reads back as the row: each node is
/// readable.
pub open spec fn readable(nodes: Seq<NodeView>, depth: nat) -> bool
    decreases nodes,
{
    forall|i: int| 0 <= i < nodes.len() ==> readable_node(#[trigger] nodes[i], depth)
}

/// A numeral writes the number it is the numeral of.
pub proof fn lemma_decimal_value(n: nat)
    ensures
        digits_value(decimal(n)) == n,
    decreases n,
{
    if n < 10 {
        assert(decimal(n).drop_last() =~= Seq::<char>::empty());
        assert(digits_value(decimal(n).drop_last()) == 0);
    } else {
        lemma_decimal_value(n / 10);
        assert(decimal(n).drop_last() =~= decimal(n / 10));
    }
}

/// In a text behind another, digits end where they end in the text alone.
pub proof fn lemma_digits_end_shift(a: Seq<char>, b: Seq<char>, from: int)
    requires
        0 <= from <= b.len(),
    ensures
        digits_end(a + b, a.len() + from) == a.len() + digits_end(b, from),
    decreases b.len() - from,
{
    if from < b.len() && is_digit(b[from]) {
        assert((a + b)[a.len() + from] == b[from]);
        lemma_digits_end_shift(a, b, from + 1);
    } else if from < b.len() {
        assert((a + b)[a.len() + from] == b[from]);
    }
}

/// In a text behind another, siblings read as they read in the text alone.
pub proof fn lemma_parse_shift(a: Seq<char>, b: Seq<char>, p: int, depth: nat)
    requires
        0 <= p,
    ensures
        parse_from(a + b, a.len() + p, depth) == parse_from(b, p, depth),
    decreases b.len() + 1 - p,
{
    let s = a + b;
    let at = a.len() + p;
    if p + 1 < b.len() {
        assert(s[at + 1] == b[p + 1]);
        assert(s[at] == b[p]);
        if is_digit(b[p + 1]) {
            lemma_digits_end_shift(a, b, p + 1);
            lemma_digits_end(b, p + 1);
            lemma_digits_end(b, p + 2);
            let q = digits_end(b, p + 1);
            assert(s.subrange(at + 1, a.len() + q) =~= b.subrange(p + 1, q));
            let n: int = digits_value(b.subrange(p + 1, q)) as int;
            if depth > 0 && n <= usize::MAX && q + n <= b.len() {
                assert(s.subrange(a.len() + q, a.len() + q + n) =~= b.subrange(q, q + n));
                lemma_parse_shift(a, b, q + n + 1, depth);
            }
        }
    }
}

/// The text of a row that is not empty starts with the segment of its first
/// node, and so with that node's descriptor.
pub proof fn lemma_text_head(nodes: Seq<NodeView>)
    requires
        nodes.len() > 0,
    ensures
        mangled_text(nodes) == if nodes.len() == 1 {
            segment(nodes[0])
        } else {
            segment(nodes[0]) + "_"@ + mangled_text(nodes.drop_first())
        },
        mangled_text(nodes).len() >= 2,
        mangled_text(nodes)[0] == nodes[0].descriptor,
{
    let first = nodes[0];
    let rest = nodes.drop_first();
    assert(nodes =~= seq![first] + rest);
    lemma_decimal_digits(payload(first.child).len());
    if rest.len() == 0 {
        assert(nodes =~= seq![first]);
        lemma_text_of_one(first);
    } else {
        lemma_text_front(first, rest);
    }
}

/// The text of a readable row reads back as the row.
pub proof fn lemma_read_back(nodes: Seq<NodeView>, depth: nat)
    requires
        readable(nodes, depth),
    ensures
        parse_from(mangled_text(nodes), 0, depth) == Parsed::Nodes(nodes),
        parse_child(mangled_text(nodes), depth) == Some(ChildView::Children(nodes)),
    decreases nodes,
{
    let s = mangled_text(nodes);
    if nodes.len() == 0 {
        assert(segments(nodes) =~= Seq::<Seq<char>>::empty());
        assert(s.len() == 0);
        assert(nodes =~= Seq::<NodeView>::empty());
    } else {
        reveal_strlit("_");
        let first = nodes[0];
        let rest = nodes.drop_first();
        let body = payload(first.child);
        let m: int = body.len() as int;
        let dec = decimal(body.len());
        let seg = segment(first);
        let deeper = (depth - 1) as nat;
        lemma_text_head(nodes);
        lemma_decimal_digits(body.len());
        lemma_decimal_value(body.len());
        assert(readable_node(first, depth));
        let q: int = 1 + dec.len() as int;
        assert(seg =~= seq![first.descriptor] + dec + body);
        assert(seg.len() == q + m);
        // The characters of the first segment are those of `s`.
        assert forall|i: int| 0 <= i < seg.len() implies s[i] == seg[i] by {}
        assert(s[0] == first.descriptor);
        assert forall|i: int| 1 <= i < q implies is_digit(#[trigger] s[i]) by {
            assert(s[i] == dec[i - 1]);
        }
        // What follows the length, if anything does, is no digit: the
        // payload's first character, or the separator.
        if m > 0 {
            assert(s[q] == body[0]);
            match first.child {
                ChildView::RawString(leaf) => {},
                ChildView::Children(inner) => {
                    if inner.len() > 0 {
                        lemma_text_head(inner);
                    } else {
                        assert(segments(inner) =~= Seq::<Seq<char>>::empty());
                    }
                },
            }
        } else if rest.len() > 0 {
            assert(s[q] == '_');
        }
        assert(q <= s.len());
        assert(q < s.len() ==> !is_digit(s[q]));
        lemma_digits_end_skips(s, 1, q);
        assert(digits_end(s, q) == q);
        assert(s.subrange(1, q) =~= dec);
        assert(s.subrange(q, q + m) =~= body);
        // The payload reads back as what the node holds.
        match first.child {
            ChildView::RawString(leaf) => {
                if leaf.len() > 1 {
                    assert(parse_from(leaf, 0, deeper) == Parsed::Raw);
                }
            },
            ChildView::Children(inner) => {
                lemma_read_back(inner, deeper);
            },
        }
        assert(parse_child(body, deeper) == Some(first.child));
        // The siblings after the first read back as the rest of the row.
        if rest.len() == 0 {
            assert(parse_from(s, q + m + 1, depth) == Parsed::Nodes(Seq::<NodeView>::empty()));
            assert(seq![first] + Seq::<NodeView>::empty() =~= nodes);
        } else {
            assert forall|i: int| 0 <= i < rest.len() implies readable_node(
                #[trigger] rest[i],
                depth,
            ) by {
                assert(rest[i] == nodes[i + 1]);
            }
            lemma_read_back(rest, depth);
            let before = seg + "_"@;
            assert(s =~= before + mangled_text(rest));
            lemma_parse_shift(before, mangled_text(rest), 0, depth);
            assert(seq![first] + rest =~= nodes);
        }
    }
}

/// A type whose names read back: a named type whose name is a readable
/// leaf, or a tuple whose members are such types.
pub open spec fn plain_type(ty: TypeView) -> bool
    decreases ty,
{
    match ty {
        TypeView::Type(name, _) => readable_leaf(name),
        TypeView::Tuple(tys, _) => forall|i: int|
            0 <= i < tys.len() ==> plain_type(#[trigger] tys[i]),
        _ => false,
    }
}

/// A segment is never shorter than two characters, and longer than its
/// payload.
pub proof fn lemma_segment_len(n: NodeView)
    ensures
        segment(n).len() >= 2,
        segment(n).len() > payload(n.child).len(),
{
    lemma_decimal_digits(payload(n.child).len());
}

/// No segment of a row is longer than the text of the row.
pub proof fn lemma_segment_within(nodes: Seq<NodeView>, i: int)
    requires
        0 <= i < nodes.len(),
    ensures
        segment(nodes[i]).len() <= mangled_text(nodes).len(),
    decreases nodes.len(),
{
    let front = nodes.drop_last();
    assert(nodes =~= front.push(nodes.last()));
    lemma_text_next(front, nodes.last());
    if i < nodes.len() - 1 {
        lemma_segment_within(front, i);
        assert(front[i] == nodes[i]);
    }
}

/// A type that nests no deeper than `depth` nests no deeper than any
/// greater depth.
pub proof fn lemma_manglable_deeper(ty: TypeView, depth: nat, more: nat)
    requires
        manglable_within(ty, depth),
        depth <= more,
    ensures
        manglable_within(ty, more),
    decreases ty,
{
    match ty {
        TypeView::Tuple(tys, _) => {
            assert forall|i: int| 0 <= i < tys.len() implies manglable_within(
                #[trigger] tys[i],
                (more - 1) as nat,
            ) by {
                lemma_manglable_deeper(tys[i], (depth - 1) as nat, (more - 1) as nat);
            }
        },
        _ => {},
    }
}

/// The node of a plain type that nests no deeper than `depth` reads back
/// where segments may nest that deep, if only its segment is no longer than
/// a `usize` can say.
pub proof fn lemma_plain_type_readable(ty: TypeView, depth: nat)
    requires
        plain_type(ty),
        manglable_within(ty, depth),
        segment(type_node(ty)).len() <= usize::MAX,
    ensures
        readable_node(type_node(ty), depth),
        !is_digit(type_node(ty).descriptor),
    decreases ty,
{
    lemma_segment_len(type_node(ty));
    match ty {
        TypeView::Tuple(tys, _) => {
            let nodes = type_nodes(tys);
            assert forall|i: int| 0 <= i < nodes.len() implies {
                &&& readable_node(#[trigger] nodes[i], (depth - 1) as nat)
                &&& !is_digit(nodes[i].descriptor)
            } by {
                lemma_segment_within(nodes, i);
                lemma_plain_type_readable(tys[i], (depth - 1) as nat);
            }
        },
        _ => {},
    }
}

/// The tree of a signature reads back, if its names and types are plain,
/// its types can be mangled, and its mangled name is no longer than a
/// `usize` can say.
pub proof fn lemma_signature_readable(names: Seq<Seq<char>>, params: Seq<TypeView>, ret: TypeView)
    requires
        forall|i: int| 0 <= i < names.len() ==> readable_leaf(#[trigger] names[i]),
        forall|i: int|
            0 <= i < params.len() ==> plain_type(#[trigger] params[i]) && manglable(params[i]),
        plain_type(ret),
        manglable(ret),
        mangled_text(signature_nodes(names, params, ret)).len() <= usize::MAX,
    ensures
        readable(signature_nodes(names, params, ret), MAX_NESTING as nat),
{
    let nodes = signature_nodes(names, params, ret);
    let args = args_node(params);
    let inner = params.map_values(|ty: TypeView| param_node(ty));
    let count: int = names.len() as int;
    let depth = MAX_NESTING as nat;
    assert(nodes[count] == args);
    assert(nodes[count + 1] == return_node(ret));
    // The return type.
    lemma_segment_within(nodes, count + 1);
    lemma_segment_len(return_node(ret));
    lemma_text_of_one(type_node(ret));
    lemma_manglable_deeper(ret, MAX_TYPE_NESTING as nat, (depth - 1) as nat);
    lemma_plain_type_readable(ret, (depth - 1) as nat);
    assert(readable(seq![type_node(ret)], (depth - 1) as nat));
    assert(readable_node(return_node(ret), depth));
    // The argument list.
    lemma_segment_within(nodes, count);
    lemma_segment_len(args);
    assert forall|i: int| 0 <= i < inner.len() implies readable_node(
        #[trigger] inner[i],
        (depth - 1) as nat,
    ) by {
        lemma_segment_within(inner, i);
        lemma_segment_len(inner[i]);
        lemma_text_of_one(type_node(params[i]));
        lemma_plain_type_readable(params[i], (depth - 2) as nat);
        assert(readable(seq![type_node(params[i])], (depth - 2) as nat));
    }
    assert(readable_node(args, depth));
    // The names of the path.
    assert forall|i: int| 0 <= i < nodes.len() implies readable_node(#[trigger] nodes[i], depth) by {
        if i < names.len() {
            assert(nodes[i] == name_node(names[i]));
            lemma_segment_within(nodes, i);
            lemma_segment_len(nodes[i]);
        }
    }
}

/// Round trip of a tree: the text of a readable row of nodes demangles to
/// that row.
pub proof fn theorem_tree_round_trip(nodes: Seq<NodeView>)
    requires
        readable(nodes, MAX_NESTING as nat),
    ensures
        parse_name(mangled_text(nodes)) == Some(ChildView::Children(nodes)),
{
    lemma_read_back(nodes, MAX_NESTING as nat);
}

/// Round trip of a signature: the mangled name of a function symbol
/// demangles to the tree of the symbol, whose leaves are the names of the
/// path and of the types. This holds of every symbol whose types can be
/// mangled, where no name of the path or of a type is empty or has a digit
/// in first or second place, and where the mangled name is no longer than a
/// `usize` can say.
pub proof fn theorem_round_trip(names: Seq<Seq<char>>, params: Seq<TypeView>, ret: TypeView)
    requires
        forall|i: int| 0 <= i < names.len() ==> readable_leaf(#[trigger] names[i]),
        forall|i: int|
            0 <= i < params.len() ==> plain_type(#[trigger] params[i]) && manglable(params[i]),
        plain_type(ret),
        manglable(ret),
        mangled_text(signature_nodes(names, params, ret)).len() <= usize::MAX,
    ensures
        parse_name(mangled_text(signature_nodes(names, params, ret))) == Some(
            ChildView::Children(signature_nodes(names, params, ret)),
        ),
{
    lemma_signature_readable(names, params, ret);
    lemma_read_back(signature_nodes(names, params, ret), MAX_NESTING as nat);
}

/// The code of every operator that can be overloaded is a readable leaf.
pub proof fn lemma_opcodes_readable(token: TokenType)
    requires
        opcode(token) is Some,
    ensures
        readable_leaf(opcode(token)->0),
        opcode(token)->0.len() == 3,
{
    reveal_strlit("add");
    reveal_strlit("sub");
    reveal_strlit("mul");
    reveal_strlit("div");
    reveal_strlit("mod");
    reveal_strlit("mdd");
    reveal_strlit("grt");
    reveal_strlit("lst");
    reveal_strlit("get");
    reveal_strlit("let");
    reveal_strlit("eqt");
}

/// Round trip of an operator overload: the mangled name of the overload
/// demangles to the operator tag followed by the tree of the function
/// symbol, under the same conditions as for a function symbol alone.
pub proof fn theorem_overload_round_trip(
    token: TokenType,
    names: Seq<Seq<char>>,
    params: Seq<TypeView>,
    ret: TypeView,
)
    requires
        opcode(token) is Some,
        forall|i: int| 0 <= i < names.len() ==> readable_leaf(#[trigger] names[i]),
        forall|i: int|
            0 <= i < params.len() ==> plain_type(#[trigger] params[i]) && manglable(params[i]),
        plain_type(ret),
        manglable(ret),
        mangled_text(overload_nodes(opcode(token)->0, names, params, ret)).len() <= usize::MAX,
    ensures
        parse_name(mangled_text(overload_nodes(opcode(token)->0, names, params, ret))) == Some(
            ChildView::Children(overload_nodes(opcode(token)->0, names, params, ret)),
        ),
{
    let code = opcode(token)->0;
    let tag = operator_node(code);
    let symbol = signature_nodes(names, params, ret);
    let nodes = overload_nodes(code, names, params, ret);
    lemma_opcodes_readable(token);
    lemma_text_front(tag, symbol);
    lemma_signature_readable(names, params, ret);
    assert forall|i: int| 0 <= i < nodes.len() implies readable_node(
        #[trigger] nodes[i],
        MAX_NESTING as nat,
    ) by {
        if i > 0 {
            assert(nodes[i] == symbol[i - 1]);
        }
    }
    lemma_read_back(nodes, MAX_NESTING as nat);
}

/// Two types that are the same but for the source ranges they carry.
pub open spec fn alike(a: TypeView, b: TypeView) -> bool
    decreases a,
{
    match (a, b) {
        (TypeView::Type(n, _), TypeView::Type(m, _)) => n == m,
        (TypeView::Tuple(xs, _), TypeView::Tuple(ys, _)) => {
            &&& xs.len() == ys.len()
            &&& forall|i: int| 0 <= i < xs.len() ==> alike(#[trigger] xs[i], ys[i])
        },
        (TypeView::Function(xs, x, _), TypeView::Function(ys, y, _)) => {
            &&& xs.len() == ys.len()
            &&& forall|i: int| 0 <= i < xs.len() ==> alike(#[trigger] xs[i], ys[i])
            &&& alike(*x, *y)
        },
        (TypeView::Never(_), TypeView::Never(_)) => true,
        (TypeView::Infer(i, _), TypeView::Infer(j, _)) => i == j,
        _ => false,
    }
}

/// Types with the same node are the same but for their source ranges.
pub proof fn lemma_same_node_alike(a: TypeView, b: TypeView, depth: nat, other_depth: nat)
    requires
        manglable_within(a, depth),
        manglable_within(b, other_depth),
        type_node(a) == type_node(b),
    ensures
        alike(a, b),
    decreases a,
{
    match (a, b) {
        (TypeView::Tuple(xs, _), TypeView::Tuple(ys, _)) => {
            assert(type_nodes(xs).len() == type_nodes(ys).len());
            assert forall|i: int| 0 <= i < xs.len() implies alike(#[trigger] xs[i], ys[i]) by {
                assert(type_nodes(xs)[i] == type_nodes(ys)[i]);
                lemma_same_node_alike(
                    xs[i],
                    ys[i],
                    (depth - 1) as nat,
                    (other_depth - 1) as nat,
                );
            }
        },
        _ => {},
    }
}

/// Mangled names are unique: two function symbols with the same mangled
/// name have the same path, and argument and return types that are the same
/// but for their source ranges. This holds of symbols that read back, as
/// `theorem_round_trip` says which do.
pub proof fn theorem_mangled_names_unique(
    names: Seq<Seq<char>>,
    params: Seq<TypeView>,
    ret: TypeView,
    other_names: Seq<Seq<char>>,
    other_params: Seq<TypeView>,
    other_ret: TypeView,
)
    requires
        forall|i: int| 0 <= i < names.len() ==> readable_leaf(#[trigger] names[i]),
        forall|i: int|
            0 <= i < params.len() ==> plain_type(#[trigger] params[i]) && manglable(params[i]),
        plain_type(ret),
        manglable(ret),
        mangled_text(signature_nodes(names, params, ret)).len() <= usize::MAX,
        forall|i: int| 0 <= i < other_names.len() ==> readable_leaf(#[trigger] other_names[i]),
        forall|i: int|
            0 <= i < other_params.len() ==> plain_type(#[trigger] other_params[i]) && manglable(
                other_params[i],
            ),
        plain_type(other_ret),
        manglable(other_ret),
        mangled_text(signature_nodes(names, params, ret)) == mangled_text(
            signature_nodes(other_names, other_params, other_ret),
        ),
    ensures
        names == other_names,
        params.len() == other_params.len(),
        forall|i: int| 0 <= i < params.len() ==> alike(#[trigger] params[i], other_params[i]),
        alike(ret, other_ret),
{
    let nodes = signature_nodes(names, params, ret);
    let other_nodes = signature_nodes(other_names, other_params, other_ret);
    theorem_round_trip(names, params, ret);
    theorem_round_trip(other_names, other_params, other_ret);
    lemma_signature_readable(names, params, ret);
    lemma_signature_readable(other_names, other_params, other_ret);
    assert(nodes == other_nodes);
    let count: int = names.len() as int;
    assert(nodes.len() == count + 2);
    assert(other_nodes.len() == other_names.len() + 2);
    assert forall|i: int| 0 <= i < count implies names[i] == other_names[i] by {
        assert(nodes[i] == name_node(names[i]));
        assert(other_nodes[i] == name_node(other_names[i]));
    }
    assert(names =~= other_names);
    // The argument lists.
    assert(nodes[count] == args_node(params));
    assert(other_nodes[count] == args_node(other_params));
    let inner = params.map_values(|ty: TypeView| param_node(ty));
    let other_inner = other_params.map_values(|ty: TypeView| param_node(ty));
    assert(inner == other_inner);
    assert(inner.len() == params.len() && other_inner.len() == other_params.len());
    assert forall|i: int| 0 <= i < params.len() implies alike(
        #[trigger] params[i],
        other_params[i],
    ) by {
        assert(inner[i] == param_node(params[i]));
        assert(other_inner[i] == param_node(other_params[i]));
        assert(seq![type_node(params[i])][0] == seq![type_node(other_params[i])][0]);
        lemma_same_node_alike(
            params[i],
            other_params[i],
            MAX_TYPE_NESTING as nat,
            MAX_TYPE_NESTING as nat,
        );
    }
    // The return types.
    assert(nodes[count + 1] == return_node(ret));
    assert(other_nodes[count + 1] == return_node(other_ret));
    assert(seq![type_node(ret)][0] == seq![type_node(other_ret)][0]);
    lemma_same_node_alike(ret, other_ret, MAX_TYPE_NESTING as nat, MAX_TYPE_NESTING as nat);
}

} // verus!
