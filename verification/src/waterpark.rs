//! Level 103: the indoor waterpark. The level is solved once every one of
//! the five slides has been ridden.
use crate::scoreboard::Scoreboard;
use vstd::prelude::*;

verus! {

/// The waterpark's level id.
pub const ID: u32 = 103;
/// Number of slides.
pub const SLIDES: usize = 5;

/// Which slides the player has ridden.
#[derive(Clone, Copy, Debug, Default)]
pub struct SlidesRidden(pub [bool; 5]);

/// Number of `true` entries.
pub open spec fn count_true(s: Seq<bool>) -> nat
    decreases s.len(),
{
    if s.len() == 0 {
        0
    } else {
        count_true(s.drop_last()) + (if s.last() { 1nat } else { 0nat })
    }
}

impl SlidesRidden {
    /// Marks slide `slide` ridden; ids past the last slide are ignored.
    pub fn mark_ridden(&mut self, slide: usize)
        ensures
            final(self).0@ == (if slide < SLIDES { old(self).0@.update(slide as int, true) } else { old(self).0@ }),
    {
        if slide < SLIDES {
            self.0[slide] = true;
        }
    }

    /// How many slides have been ridden (shown as "Slides ridden: n / 5").
    pub fn ridden_count(&self) -> (n: usize)
        ensures
            n == count_true(self.0@),
            n <= SLIDES,
    {
        let mut n: usize = 0;
        let mut i: usize = 0;
        while i < SLIDES
            invariant
                i <= SLIDES,
                n == count_true(self.0@.take(i as int)),
                n <= i,
            decreases SLIDES - i,
        {
            proof {
                assert(self.0@.take(i as int + 1).drop_last() =~= self.0@.take(i as int));
            }
            if self.0[i] {
                n = n + 1;
            }
            i += 1;
        }
        proof {
            assert(self.0@.take(5) =~= self.0@);
        }
        n
    }

    /// Whether every slide has been ridden.
    pub fn all_ridden(&self) -> (b: bool)
        ensures
            b == (forall|i: int| 0 <= i < 5 ==> #[trigger] self.0@[i]),
    {
        self.0[0] && self.0[1] && self.0[2] && self.0[3] && self.0[4]
    }
}

/// Marks the waterpark solved once all slides are ridden; returns whether
/// the level is won.
pub fn slides_complete_check(ridden: &SlidesRidden, scoreboard: &mut Scoreboard) -> (won: bool)
    ensures
        won == (forall|i: int| 0 <= i < 5 ==> #[trigger] ridden.0@[i]),
        final(scoreboard)@ == (if won { old(scoreboard)@.insert(ID) } else { old(scoreboard)@ }),
{
    if ridden.all_ridden() {
        scoreboard.set_solved(ID);
        true
    } else {
        false
    }
}

/// Marking an entry raises the count by one exactly when it was unmarked;
/// nothing marked counts zero; everything marked counts the length.
pub proof fn lemma_count_marks(s: Seq<bool>, i: int)
    requires
        0 <= i < s.len(),
    ensures
        count_true(s.update(i, true)) == count_true(s) + (if s[i] { 0int } else { 1int }),
        (forall|j: int| 0 <= j < s.len() ==> !#[trigger] s[j]) ==> count_true(s) == 0,
        (forall|j: int| 0 <= j < s.len() ==> #[trigger] s[j]) ==> count_true(s) == s.len(),
    decreases s.len(),
{
    let u = s.update(i, true);
    if i == s.len() - 1 {
        assert(u.drop_last() =~= s.drop_last());
    } else {
        assert(u.drop_last() =~= s.drop_last().update(i, true));
        lemma_count_marks(s.drop_last(), i);
    }
    lemma_count_extremes(s);
}

/// All-unmarked counts zero and all-marked counts the length.
proof fn lemma_count_extremes(s: Seq<bool>)
    ensures
        (forall|j: int| 0 <= j < s.len() ==> !#[trigger] s[j]) ==> count_true(s) == 0,
        (forall|j: int| 0 <= j < s.len() ==> #[trigger] s[j]) ==> count_true(s) == s.len(),
    decreases s.len(),
{
    if s.len() > 0 {
        lemma_count_extremes(s.drop_last());
        assert forall|j: int| 0 <= j < s.drop_last().len() implies #[trigger] s.drop_last()[j] == s[j] by {}
    }
}

} // verus!
