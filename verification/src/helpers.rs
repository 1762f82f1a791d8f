//! Source positions and a few helpers shared by the passes.

use crate::logger::{ErrorLevel, ErrorValue};
use vstd::prelude::*;

verus! {

/// A range of characters in one source buffer.
///
/// Offsets count characters from the start of the buffer; a line break is one
/// character like any other, and no line numbers are kept.
#[derive(Debug, Copy, Clone, Hash, PartialEq, Eq, Structural)]
pub struct Pos {
    /// Offset of the first character.
    pub s: usize,
    /// Offset just past the last character.
    pub e: usize,
    /// Which source buffer the offsets refer to.
    pub filename_id: usize,
}

impl Pos {
    pub fn new(s: usize, e: usize, filename_id: usize) -> (pos: Self)
        ensures
            pos == (Pos { s, e, filename_id }),
    {
        Self { s, e, filename_id }
    }

    /// The start and end offsets, without the buffer id.
    pub fn to_tuple(&self) -> (range: (usize, usize))
        ensures
            range == (self.s, self.e),
    {
        (self.s, self.e)
    }

    /// The range from the start of `lower` to the end of `higher`, in the
    /// buffer of `lower`.
    pub open spec fn span(lower: Pos, higher: Pos) -> Pos {
        Pos { s: lower.s, e: higher.e, filename_id: lower.filename_id }
    }

    /// Merges two ranges given in source order. The order is the caller's
    /// business and is not checked.
    pub fn calc(lower: Self, higher: Self) -> (merged: Self)
        ensures
            merged == Self::span(lower, higher),
    {
        Self { s: lower.s, e: higher.e, filename_id: lower.filename_id }
    }
}

/// The highest rank among the classes in a batch, 0 for an empty batch.
pub open spec fn top_rank(errors: Seq<(ErrorValue, ErrorLevel)>) -> nat
    decreases errors.len(),
{
    if errors.len() == 0 {
        0
    } else {
        let rest = top_rank(errors.drop_last());
        let last = errors.last().1.rank();
        if last > rest {
            last
        } else {
            rest
        }
    }
}

/// The errors of a batch whose class has the highest rank present, in their
/// order in the batch.
pub open spec fn high_priority(errors: Seq<(ErrorValue, ErrorLevel)>) -> Seq<ErrorValue> {
    errors.filter(|e: (ErrorValue, ErrorLevel)| e.1.rank() == top_rank(errors)).map_values(
        |e: (ErrorValue, ErrorLevel)| e.0,
    )
}

/// `top_rank` bounds every rank in the batch and, unless the batch is empty,
/// is the rank of one of its members.
pub proof fn lemma_top_rank(errors: Seq<(ErrorValue, ErrorLevel)>)
    ensures
        forall|i: int| 0 <= i < errors.len() ==> (#[trigger] errors[i]).1.rank() <= top_rank(errors),
        errors.len() > 0 ==> exists|i: int|
            0 <= i < errors.len() && (#[trigger] errors[i]).1.rank() == top_rank(errors),
    decreases errors.len(),
{
    if errors.len() > 0 {
        let front = errors.drop_last();
        lemma_top_rank(front);
        assert forall|i: int| 0 <= i < errors.len() implies (#[trigger] errors[i]).1.rank()
            <= top_rank(errors) by {
            if i < front.len() {
                assert(errors[i] == front[i]);
            }
        }
        if errors.last().1.rank() > top_rank(front) || front.len() == 0 {
            assert(errors[errors.len() - 1].1.rank() == top_rank(errors));
        } else {
            let i = choose|i: int|
                0 <= i < front.len() && (#[trigger] front[i]).1.rank() == top_rank(front);
            assert(errors[i] == front[i]);
        }
    }
}

/// Keeps the errors of the highest priority class present in the batch and
/// drops the rest; the survivors keep their order. An empty batch stays
/// empty.
pub fn get_high_priority(errors: Vec<(ErrorValue, ErrorLevel)>) -> (kept: Vec<ErrorValue>)
    ensures
        kept@ == high_priority(errors@),
{
    let ghost all = errors@;
    let mut max_error_priority: usize = 0;
    let mut i: usize = 0;
    while i < errors.len()
        invariant
            i <= errors.len(),
            max_error_priority == top_rank(errors@.take(i as int)),
        decreases errors.len() - i,
    {
        let p = errors[i].1.priority();
        proof {
            assert(errors@.take(i + 1).drop_last() == errors@.take(i as int));
        }
        if p > max_error_priority {
            max_error_priority = p;
        }
        i += 1;
    }
    proof {
        assert(errors@.take(errors.len() as int) == errors@);
    }
    // Move the batch out back to front, then restore the order while sifting.
    let mut pending = errors;
    let mut reversed: Vec<(ErrorValue, ErrorLevel)> = Vec::new();
    while pending.len() > 0
        invariant
            pending@.len() + reversed@.len() == all.len(),
            pending@ == all.take(pending@.len() as int),
            forall|j: int| 0 <= j < reversed@.len() ==> reversed@[j] == all[all.len() - 1 - j],
        decreases pending.len(),
    {
        let item = pending.pop().unwrap();
        reversed.push(item);
    }
    let ghost pred = |e: (ErrorValue, ErrorLevel)| e.1.rank() == top_rank(all);
    let ghost pick = |e: (ErrorValue, ErrorLevel)| e.0;
    let mut kept: Vec<ErrorValue> = Vec::new();
    proof {
        assert(all.take(0).filter(pred) == Seq::<(ErrorValue, ErrorLevel)>::empty());
    }
    while reversed.len() > 0
        invariant
            reversed@.len() <= all.len(),
            max_error_priority == top_rank(all),
            pred == |e: (ErrorValue, ErrorLevel)| e.1.rank() == top_rank(all),
            pick == |e: (ErrorValue, ErrorLevel)| e.0,
            forall|j: int| 0 <= j < reversed@.len() ==> reversed@[j] == all[all.len() - 1 - j],
            kept@ == all.take(all.len() - reversed@.len()).filter(pred).map_values(pick),
        decreases reversed.len(),
    {
        let ghost done = all.len() - reversed@.len();
        let item = reversed.pop().unwrap();
        proof {
            assert(item == all[done]);
            assert(all.take(done + 1) == all.take(done).push(item));
            Seq::lemma_filter_push(all.take(done), item, pred);
            if pred(item) {
                all.take(done).filter(pred).lemma_push_map_commute(pick, item);
            }
        }
        if item.1.priority() == max_error_priority {
            kept.push(item.0);
        }
    }
    proof {
        assert(all.take(all.len() as int) == all);
    }
    kept
}

/// The unit in which a span of time is shown.
#[derive(Debug, Clone, Copy, PartialEq, Eq, Structural)]
pub enum DurationUnit {
    Nanoseconds,
    Microseconds,
    Milliseconds,
    Seconds,
}

impl DurationUnit {
    /// How many nanoseconds make one of the unit.
    pub open spec fn nanos(self) -> nat {
        match self {
            DurationUnit::Nanoseconds => 1,
            DurationUnit::Microseconds => 1_000,
            DurationUnit::Milliseconds => 1_000_000,
            DurationUnit::Seconds => 1_000_000_000,
        }
    }

    /// How many nanoseconds make one of the unit.
    pub fn nanos_per_unit(&self) -> (n: u32)
        ensures
            n == self.nanos(),
    {
        match self {
            DurationUnit::Nanoseconds => 1,
            DurationUnit::Microseconds => 1_000,
            DurationUnit::Milliseconds => 1_000_000,
            DurationUnit::Seconds => 1_000_000_000,
        }
    }
}

/// The largest unit of which the span holds at least one; nanoseconds for an
/// empty span.
pub open spec fn unit_of(nanos: nat) -> DurationUnit {
    if nanos < 1_000 {
        DurationUnit::Nanoseconds
    } else if nanos < 1_000_000 {
        DurationUnit::Microseconds
    } else if nanos < 1_000_000_000 {
        DurationUnit::Milliseconds
    } else {
        DurationUnit::Seconds
    }
}

/// Picks the unit in which a span of `nanos` nanoseconds is shown: the
/// largest unit of which the span holds at least one.
pub fn duration_unit(nanos: u128) -> (unit: DurationUnit)
    ensures
        unit == unit_of(nanos as nat),
{
    if nanos < 1_000 {
        DurationUnit::Nanoseconds
    } else if nanos < 1_000_000 {
        DurationUnit::Microseconds
    } else if nanos < 1_000_000_000 {
        DurationUnit::Milliseconds
    } else {
        DurationUnit::Seconds
    }
}

/// The singular or the plural of a regular noun, by count.
pub open spec fn plural_of(n: nat, val: Seq<char>) -> Seq<char> {
    if n == 1 {
        val
    } else {
        val.push('s')
    }
}

/// `val` for a count of one, `val` followed by `s` for any other count.
pub fn plural(n: usize, val: &str) -> (text: String)
    ensures
        text@ == plural_of(n as nat, val@),
{
    let mut text = val.to_owned();
    if n != 1 {
        proof {
            reveal_strlit("s");
        }
        text.append("s");
        assert(text@ == val@.push('s'));
    }
    text
}

} // verus!
