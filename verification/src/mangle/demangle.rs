//! Reading a mangled name into its tree.

use super::tree::{lemma_node_view, node_views, ChildView, Node, NodeChild, NodeView};
use crate::helpers::Pos;
use crate::logger::{ErrorAnnotationView, ErrorDisplayType, ErrorType, ErrorValue, ErrorValueView};
use crate::text::{collect_chars, digit_value, is_digit};
use vstd::prelude::*;

verus! {

/// The first position at or after `from` that holds no digit; the length of
/// the text if digits run to its end.
pub open spec fn digits_end(s: Seq<char>, from: int) -> int
    decreases s.len() - from,
{
    if 0 <= from < s.len() && is_digit(s[from]) {
        digits_end(s, from + 1)
    } else {
        from
    }
}

/// The digits that start at `from` end after it unless there are none, and
/// all of them are digits.
pub proof fn lemma_digits_end(s: Seq<char>, from: int)
    requires
        0 <= from <= s.len(),
    ensures
        from <= digits_end(s, from) <= s.len(),
        forall|i: int| from <= i < digits_end(s, from) ==> is_digit(#[trigger] s[i]),
        digits_end(s, from) < s.len() ==> !is_digit(s[digits_end(s, from)]),
    decreases s.len() - from,
{
    if from < s.len() && is_digit(s[from]) {
        lemma_digits_end(s, from + 1);
    }
}

/// The number that a run of digits writes.
pub open spec fn digits_value(s: Seq<char>) -> nat
    decreases s.len(),
{
    if s.len() == 0 {
        0
    } else {
        digits_value(s.drop_last()) * 10 + digit_value(s.last())
    }
}

/// How deep segments may nest in a name that is read: a segment of the name
/// itself is at depth one, a segment in its payload at depth two, and so on.
/// A name that nests deeper is refused, so that reading never goes deeper
/// than this, whatever the text.
pub const MAX_NESTING: usize = 128;

/// What reading a row of siblings comes to.
pub ghost enum Parsed {
    /// A length does not fit the machine or asks for more than is left, or
    /// a segment nests too deep.
    Malformed,
    /// Where a segment should start, no length follows the first
    /// character: the text is no row of segments but one raw text.
    Raw,
    /// The segments that were read.
    Nodes(Seq<NodeView>),
}

/// Reads the siblings that start at position `p` of `s`, where segments may
/// still nest `depth` deep.
///
/// With fewer than two characters left, the row is over. Else the first
/// character is a descriptor. If no digit follows it, the whole of `s` is a
/// raw text. Else all digits that follow are the length. A segment may
/// start only where `depth` is not used up; the length must fit a `usize`,
/// and that many characters must be left: they are the payload, which is
/// read as a text of its own, one level deeper. One more character, the
/// separator, is passed over, and the next sibling starts.
pub open spec fn parse_from(s: Seq<char>, p: int, depth: nat) -> Parsed
    decreases s.len(), s.len() + 1 - p,
    via parse_from_terminates
{
    if p < 0 || p + 1 >= s.len() {
        Parsed::Nodes(Seq::empty())
    } else if !is_digit(s[p + 1]) {
        Parsed::Raw
    } else {
        let q = digits_end(s, p + 1);
        let n = digits_value(s.subrange(p + 1, q));
        if depth == 0 || n > usize::MAX || q + n > s.len() {
            Parsed::Malformed
        } else {
            match parse_child(s.subrange(q, q + n), (depth - 1) as nat) {
                None => Parsed::Malformed,
                Some(child) => match parse_from(s, q + n + 1, depth) {
                    Parsed::Malformed => Parsed::Malformed,
                    Parsed::Raw => Parsed::Raw,
                    Parsed::Nodes(rest) => Parsed::Nodes(
                        seq![NodeView { descriptor: s[p], child }] + rest,
                    ),
                },
            }
        }
    }
}

#[via_fn]
proof fn parse_from_terminates(s: Seq<char>, p: int, depth: nat) {
    if 0 <= p && p + 1 < s.len() && is_digit(s[p + 1]) {
        lemma_digits_end(s, p + 1);
        lemma_digits_end(s, p + 2);
    }
}

/// Reads a payload in which segments may still nest `depth` deep: `None`
/// where it is malformed. A single character is a raw text; any other text
/// is a row of segments, or a raw text where no segment starts.
pub open spec fn parse_child(s: Seq<char>, depth: nat) -> Option<ChildView>
    decreases s.len(), s.len() + 2,
{
    if s.len() == 1 {
        Some(ChildView::RawString(s))
    } else {
        match parse_from(s, 0, depth) {
            Parsed::Malformed => None,
            Parsed::Raw => Some(ChildView::RawString(s)),
            Parsed::Nodes(nodes) => Some(ChildView::Children(nodes)),
        }
    }
}

/// Reads a whole mangled name: `None` where it is malformed, which includes
/// segments that nest deeper than `MAX_NESTING`.
pub open spec fn parse_name(s: Seq<char>) -> Option<ChildView> {
    parse_child(s, MAX_NESTING as nat)
}

/// A run of digits continues the number written so far.
pub proof fn lemma_digits_value_step(s: Seq<char>, a: int, b: int)
    requires
        0 <= a <= b < s.len(),
    ensures
        digits_value(s.subrange(a, b + 1)) == digits_value(s.subrange(a, b)) * 10 + digit_value(s[b]),
{
    assert(s.subrange(a, b + 1).drop_last() == s.subrange(a, b));
}

/// A longer run of digits writes no smaller a number.
pub proof fn lemma_digits_value_grows(s: Seq<char>, a: int, b: int, c: int)
    requires
        0 <= a <= b <= c <= s.len(),
    ensures
        digits_value(s.subrange(a, b)) <= digits_value(s.subrange(a, c)),
    decreases c - b,
{
    if b < c {
        lemma_digits_value_grows(s, a, b, c - 1);
        lemma_digits_value_step(s, a, c - 1);
    }
}

/// Past a stretch of digits, the digits end where they end after it.
pub proof fn lemma_digits_end_skips(s: Seq<char>, a: int, b: int)
    requires
        0 <= a <= b <= s.len(),
        forall|i: int| a <= i < b ==> is_digit(#[trigger] s[i]),
    ensures
        digits_end(s, a) == digits_end(s, b),
    decreases b - a,
{
    if a < b {
        lemma_digits_end_skips(s, a + 1, b);
    }
}

/// The siblings read so far, followed by what reading the rest comes to.
pub open spec fn prepend(read: Seq<NodeView>, rest: Parsed) -> Parsed {
    match rest {
        Parsed::Malformed => Parsed::Malformed,
        Parsed::Raw => Parsed::Raw,
        Parsed::Nodes(nodes) => Parsed::Nodes(read + nodes),
    }
}

/// Reading one more sibling moves it from the rest to what was read.
pub proof fn lemma_prepend_push(read: Seq<NodeView>, node: NodeView, rest: Parsed)
    ensures
        prepend(
            read,
            match rest {
                Parsed::Malformed => Parsed::Malformed,
                Parsed::Raw => Parsed::Raw,
                Parsed::Nodes(nodes) => Parsed::Nodes(seq![node] + nodes),
            },
        ) == prepend(read.push(node), rest),
{
    match rest {
        Parsed::Nodes(nodes) => {
            assert(read + (seq![node] + nodes) =~= read.push(node) + nodes);
        },
        _ => {},
    }
}

/// The error for a text of `len` characters that is no mangled name. Its
/// range is the text itself.
pub open spec fn malformed_error(len: nat) -> ErrorValueView {
    ErrorValueView {
        message: "malformed mangled name"@,
        error: ErrorType::MalformedMangledName,
        position: Pos { s: 0, e: len as usize, filename_id: 0 },
        mode: ErrorDisplayType::Error,
        annotations: Seq::<ErrorAnnotationView>::empty(),
    }
}

/// The view of what reading can give: nothing where the text is malformed.
pub open spec fn read_view(r: Option<NodeChild>) -> Option<ChildView> {
    match r {
        Some(child) => Some(child@),
        None => None,
    }
}

/// Reads the characters from `lo` up to `hi` as a payload in which segments
/// may still nest `depth` deep.
fn demangle_range(text: &str, chars: &Vec<char>, lo: usize, hi: usize, depth: usize) -> (r: Option<
    NodeChild,
>)
    requires
        chars@ == text@,
        lo <= hi <= chars@.len(),
    ensures
        read_view(r) == parse_child(chars@.subrange(lo as int, hi as int), depth as nat),
    decreases hi - lo,
{
    let ghost s = chars@.subrange(lo as int, hi as int);
    if hi - lo == 1 {
        return Some(NodeChild::RawString(text.substring_char(lo, hi).to_owned()));
    }
    let mut nodes: Vec<Node> = Vec::new();
    let mut p: usize = lo;
    assert(Seq::<NodeView>::empty() + Seq::<NodeView>::empty() =~= Seq::<NodeView>::empty());
    loop
        invariant
            chars@ == text@,
            lo <= p <= hi <= chars@.len(),
            s == chars@.subrange(lo as int, hi as int),
            s.len() != 1,
            parse_from(s, 0, depth as nat) == prepend(
                node_views(nodes@),
                parse_from(s, p - lo, depth as nat),
            ),
        decreases hi - p,
    {
        let ghost rel = p - lo;
        if hi - p < 2 {
            proof {
                assert(node_views(nodes@) + Seq::<NodeView>::empty() =~= node_views(nodes@));
            }
            return Some(NodeChild::Children(nodes));
        }
        let first = chars[p];
        let next = chars[p + 1];
        assert(s[rel] == first && s[rel + 1] == next);
        if !(next >= '0' && next <= '9') {
            return Some(NodeChild::RawString(text.substring_char(lo, hi).to_owned()));
        }
        let mut q: usize = p + 1;
        let mut length: usize = 0;
        proof {
            assert(s.subrange(rel + 1, rel + 1) =~= Seq::<char>::empty());
        }
        while q < hi && chars[q] >= '0' && chars[q] <= '9'
            invariant
                s.len() != 1,
                parse_from(s, 0, depth as nat) == prepend(
                    node_views(nodes@),
                    parse_from(s, rel, depth as nat),
                ),
                rel + 1 < s.len(),
                is_digit(s[rel + 1]),
                p + 1 <= q <= hi <= chars@.len(),
                lo <= p,
                rel == p - lo,
                s == chars@.subrange(lo as int, hi as int),
                forall|i: int| rel + 1 <= i < q - lo ==> is_digit(#[trigger] s[i]),
                length == digits_value(s.subrange(rel + 1, q - lo)),
            decreases hi - q,
        {
            let d = (chars[q] as u32 - '0' as u32) as usize;
            proof {
                assert(s[q - lo] == chars@[q as int]);
                assert(d == digit_value(s[q - lo]));
                lemma_digits_value_step(s, rel + 1, q - lo);
            }
            if length > (usize::MAX - d) / 10 {
                proof {
                    // The number is too large already, however the digits go on.
                    let end = digits_end(s, rel + 1);
                    lemma_digits_end_skips(s, rel + 1, q - lo);
                    assert(digits_end(s, q - lo) == digits_end(s, q - lo + 1));
                    lemma_digits_end(s, q - lo + 1);
                    lemma_digits_value_grows(s, rel + 1, q - lo + 1, end);
                    assert(length * 10 + d > usize::MAX);
                    assert(digits_value(s.subrange(rel + 1, end)) > usize::MAX);
                    assert(parse_from(s, rel, depth as nat) == Parsed::Malformed);
                }
                return None;
            }
            length = length * 10 + d;
            q += 1;
        }
        proof {
            lemma_digits_end_skips(s, rel + 1, q - lo);
            assert(digits_end(s, q - lo) == q - lo);
        }
        if depth == 0 {
            return None;
        }
        if length > hi - q {
            return None;
        }
        proof {
            assert(s.subrange(q - lo, q - lo + length) =~= chars@.subrange(
                q as int,
                q + length as int,
            ));
        }
        let child = match demangle_range(text, chars, q, q + length, depth - 1) {
            Some(child) => child,
            None => {
                return None;
            },
        };
        let node = Node { descriptor: first, child };
        let ghost before = nodes@;
        let ghost latest = node;
        nodes.push(node);
        proof {
            lemma_node_view(latest);
            before.lemma_push_map_commute(|n: Node| n@, latest);
            lemma_prepend_push(
                node_views(before),
                latest@,
                parse_from(s, q - lo + length + 1, depth as nat),
            );
        }
        p = q + length;
        if p < hi {
            p += 1;
        }
    }
}

/// Builds the error for a text of `len` characters that is no mangled name.
fn malformed_name(len: usize) -> (e: ErrorValue)
    ensures
        e@ == malformed_error(len as nat),
{
    let e = ErrorValue::new(
        "malformed mangled name".to_owned(),
        ErrorType::MalformedMangledName,
        Pos::new(0, len, 0),
        ErrorDisplayType::Error,
        Vec::new(),
    );
    assert(e@.annotations =~= Seq::<ErrorAnnotationView>::empty());
    e
}

impl NodeChild {
    /// Reads a whole mangled name. A text that no segment starts is a raw
    /// text. A text with a segment whose length is out of order, or whose
    /// segments nest deeper than `MAX_NESTING`, is an error.
    pub fn demangle(input: String) -> (r: Result<NodeChild, ErrorValue>)
        ensures
            match r {
                Ok(child) => parse_name(input@) == Some(child@),
                Err(e) => parse_name(input@) is None && e@ == malformed_error(input@.len()),
            },
    {
        let chars = collect_chars(input.as_str());
        assert(chars@.subrange(0, chars@.len() as int) =~= input@);
        match demangle_range(input.as_str(), &chars, 0, chars.len(), MAX_NESTING) {
            Some(child) => Ok(child),
            None => Err(malformed_name(chars.len())),
        }
    }
}

impl Node {
    /// Reads a mangled name into a tree under a root with the descriptor
    /// `$`.
    pub fn demangle(input: String) -> (r: Result<Node, ErrorValue>)
        ensures
            match r {
                Ok(node) => parse_name(input@) == Some(node@.child) && node@.descriptor == '$',
                Err(e) => parse_name(input@) is None && e@ == malformed_error(input@.len()),
            },
    {
        broadcast use lemma_node_view;
        match NodeChild::demangle(input) {
            Ok(child) => Ok(Node { descriptor: '$', child }),
            Err(e) => Err(e),
        }
    }
}

} // verus!
