//! The solution of a unit's type constraints: for each solved type variable,
//! the type it stands for.

use super::annotation::annotation_type::{AnnotationType, TypeView};
use std::collections::HashMap;
use vstd::prelude::*;

verus! {

/// A map from type-variable ids to resolved types. No type in it holds a
/// type variable itself, so replacing a variable by its entry is final.
pub struct Substitutions {
    subs: HashMap<usize, AnnotationType>,
}

impl View for Substitutions {
    type V = Map<usize, TypeView>;

    closed spec fn view(&self) -> Map<usize, TypeView> {
        self.subs@.map_values(|t: AnnotationType| t@)
    }
}

impl Substitutions {
    /// Every entry is a resolved type. This holds of every value of the type.
    #[verifier::type_invariant]
    pub open spec fn entries_resolved(self) -> bool {
        forall|id: usize| #[trigger] self@.contains_key(id) ==> self@[id].resolved()
    }

    /// The empty solution.
    pub fn new() -> (solved: Self)
        ensures
            solved@ == Map::<usize, TypeView>::empty(),
    {
        let solved = Substitutions { subs: HashMap::new() };
        assert(solved@ =~= Map::<usize, TypeView>::empty());
        solved
    }

    /// Records that the variable `id` stands for `ty`, replacing what was
    /// recorded for `id` before. A type that still holds a type variable is
    /// no solution: it is refused, and the map stays as it was.
    pub fn insert(&mut self, id: usize, ty: AnnotationType) -> (accepted: bool)
        ensures
            accepted == ty@.resolved(),
            final(self)@ == if accepted {
                old(self)@.insert(id, ty@)
            } else {
                old(self)@
            },
    {
        proof {
            use_type_invariant(&*self);
        }
        if ty.is_resolved() {
            // The map is edited outside the struct, so that the struct holds
            // resolved types at every moment.
            let mut subs: HashMap<usize, AnnotationType> = HashMap::new();
            core::mem::swap(&mut self.subs, &mut subs);
            subs.insert(id, ty);
            proof {
                let after = subs@.map_values(|t: AnnotationType| t@);
                assert forall|k: usize| #[trigger] after.contains_key(k) implies after[k].resolved() by {
                    if k != id {
                        assert(old(self)@.contains_key(k));
                    }
                }
            }
            core::mem::swap(&mut self.subs, &mut subs);
            assert(self@ =~= old(self)@.insert(id, ty@));
            true
        } else {
            false
        }
    }

    /// What the variable `id` stands for, if it is solved.
    pub fn get(&self, id: usize) -> (entry: Option<&AnnotationType>)
        ensures
            match entry {
                Some(ty) => self@.contains_key(id) && self@[id] == ty@ && ty@.resolved(),
                None => !self@.contains_key(id),
            },
    {
        proof {
            use_type_invariant(self);
        }
        self.subs.get(&id)
    }
}

} // verus!
