//! Which levels the player has solved this session.
use std::collections::HashSet;
use vstd::prelude::*;

verus! {

broadcast use vstd::std_specs::hash::group_hash_axioms;

/// Set of solved level ids.
pub struct Scoreboard {
    solved: HashSet<u32>,
}

impl View for Scoreboard {
    type V = Set<u32>;

    closed spec fn view(&self) -> Set<u32> {
        self.solved@
    }
}

impl Scoreboard {
    /// The solved set is always finite, so its count is meaningful.
    #[verifier::type_invariant]
    spec fn solved_set_is_finite(self) -> bool {
        self.solved@.finite()
    }
}

impl Default for Scoreboard {
    fn default() -> (s: Self)
        ensures
            s@ == Set::<u32>::empty(),
    {
        Scoreboard { solved: HashSet::new() }
    }
}

impl Scoreboard {
    /// A scoreboard with nothing solved.
    pub fn new() -> (s: Self)
        ensures
            s@ == Set::<u32>::empty(),
    {
        Scoreboard { solved: HashSet::new() }
    }

    /// Number of distinct levels solved.
    pub fn total_solved(&self) -> (n: u32)
        ensures
            n == self@.len() as u32,
            self@.finite(),
    {
        proof {
            use_type_invariant(self);
        }
        self.solved.len() as u32
    }

    /// How many challenges the game has in all: five regular levels and three
    /// hidden easter-egg levels.
    pub fn total_challenges(&self) -> (n: u32)
        ensures
            n == 8,
    {
        8
    }

    /// Whether `level` has been solved.
    pub fn is_solved(&self, level: u32) -> (b: bool)
        ensures
            b == self@.contains(level),
    {
        self.solved.contains(&level)
    }

    /// Records `level` as solved. Solving the same level again changes nothing.
    pub fn set_solved(&mut self, level: u32)
        ensures
            final(self)@ == old(self)@.insert(level),
            final(self)@.finite(),
    {
        proof {
            use_type_invariant(&*self);
        }
        let mut solved: HashSet<u32> = HashSet::new();
        std::mem::swap(&mut solved, &mut self.solved);
        solved.insert(level);
        self.solved = solved;
    }
}

/// Marking a level solved makes `is_solved` report it, leaves every other
/// level as it was, and raises the count by one exactly when the level was
/// new.
pub proof fn lemma_set_solved_then_query(before: Set<u32>, level: u32, other: u32)
    requires
        before.finite(),
    ensures
        before.insert(level).contains(level),
        other != level ==> (before.insert(level).contains(other) == before.contains(other)),
        before.insert(level).len() == before.len() + (if before.contains(level) { 0int } else { 1int }),
        before.insert(level).insert(level) == before.insert(level),
{
    assert(before.insert(level).insert(level) =~= before.insert(level));
    if before.contains(level) {
        assert(before.insert(level) =~= before);
    }
}

} // verus!
