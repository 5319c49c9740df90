//! The programs of interest: the filter between a transaction's programs and
//! the associations that are stored.

use crate::idset::{texts, IdSet};
use vstd::prelude::*;

verus! {

/// A program passes the filter when no target is configured, or when it is one of
/// the targets.
pub open spec fn passes(targets: Set<Seq<char>>, id: Seq<char>) -> bool {
    targets == Set::<Seq<char>>::empty() || targets.contains(id)
}

/// The configured set of programs of interest. The empty set tracks every
/// program.
pub struct TargetProgramSet {
    ids: IdSet,
}

impl View for TargetProgramSet {
    type V = Set<Seq<char>>;

    closed spec fn view(&self) -> Set<Seq<char>> {
        self.ids@
    }
}

impl TargetProgramSet {
    /// The set of the listed programs.
    pub fn from_list(list: &Vec<String>) -> (r: TargetProgramSet)
        ensures
            r@ == texts(list@).to_set(),
    {
        let n = list.len();
        let mut ids = IdSet::new();
        let mut i: usize = 0;
        while i < n
            invariant
                n == list@.len(),
                i <= n,
                ids@ == texts(list@).take(i as int).to_set(),
            decreases n - i,
        {
            ids = ids.insert(list[i].clone());
            proof {
                let before = texts(list@).take(i as int);
                assert(texts(list@).take(i + 1) =~= before.push(list@[i as int]@));
                before.lemma_push_to_set_commute(list@[i as int]@);
            }
            i += 1;
        }
        assert(texts(list@).take(n as int) =~= texts(list@));
        TargetProgramSet { ids }
    }

    /// The number of targets.
    pub fn len(&self) -> (n: usize)
        ensures
            self@.finite(),
            n == self@.len(),
    {
        self.ids.len()
    }

    /// Tells whether no target is configured.
    pub fn is_empty(&self) -> (r: bool)
        ensures
            r == (self@ == Set::<Seq<char>>::empty()),
    {
        self.ids.is_empty()
    }

    /// Tells whether associations with the program `id` are stored.
    pub fn tracks(&self, id: &str) -> (r: bool)
        ensures
            r == passes(self@, id@),
    {
        self.ids.is_empty() || self.ids.contains(id)
    }
}

} // verus!
