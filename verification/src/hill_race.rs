//! The hill fortress race: the player must touch every checkpoint (in any
//! order) and get back to the start before the bot finishes its lap.
use vstd::prelude::*;

verus! {

/// Number of checkpoints around the track.
pub const NUM_CHECKPOINTS: usize = 13;

/// Phase of the race.
#[derive(Clone, Copy, Debug, PartialEq, Eq, Structural, Default)]
pub enum HillRacePhase {
    #[default]
    Idle,
    Countdown,
    Racing,
    Won,
    Lost,
}

/// Race phase and the checkpoints each racer has reached.
pub struct HillRace {
    pub phase: HillRacePhase,
    pub player_checkpoints: [bool; 13],
    pub bot_checkpoints: [bool; 13],
}

/// Number of `true` entries.
pub open spec fn count_true(s: Seq<bool>) -> nat
    decreases s.len(),
{
    if s.len() == 0 {
        0
    } else {
        count_true(s.drop_last()) + (if s.last() { 1nat } else { 0nat })
    }
}

/// All entries false.
pub open spec fn all_clear(s: Seq<bool>) -> bool {
    forall|i: int| 0 <= i < s.len() ==> !#[trigger] s[i]
}

proof fn lemma_count_all(s: Seq<bool>)
    ensures
        count_true(s) <= s.len(),
        count_true(s) == s.len() <==> (forall|i: int| 0 <= i < s.len() ==> #[trigger] s[i]),
    decreases s.len(),
{
    if s.len() > 0 {
        lemma_count_all(s.drop_last());
        if count_true(s) == s.len() {
            assert forall|i: int| 0 <= i < s.len() implies #[trigger] s[i] by {
                if i < s.len() - 1 {
                    assert(s.drop_last()[i] == s[i]);
                }
            }
        }
        if forall|i: int| 0 <= i < s.len() ==> #[trigger] s[i] {
            assert forall|i: int| 0 <= i < s.drop_last().len() implies #[trigger] s.drop_last()[i] by {
                assert(s[i]);
            }
        }
    }
}

impl HillRace {
    /// An idle race with nothing reached.
    pub fn new() -> (r: Self)
        ensures
            r.phase == HillRacePhase::Idle,
            all_clear(r.player_checkpoints@),
            all_clear(r.bot_checkpoints@),
    {
        HillRace { phase: HillRacePhase::Idle, player_checkpoints: [false; 13], bot_checkpoints: [false; 13] }
    }

    /// The player steps into the start zone: an idle race begins its
    /// countdown with every checkpoint cleared. Returns whether it started.
    pub fn trigger_start(&mut self) -> (started: bool)
        ensures
            started == (old(self).phase == HillRacePhase::Idle),
            started ==> final(self).phase == HillRacePhase::Countdown && all_clear(final(self).player_checkpoints@)
                && all_clear(final(self).bot_checkpoints@),
            !started ==> final(self).phase == old(self).phase && final(self).player_checkpoints
                == old(self).player_checkpoints && final(self).bot_checkpoints == old(self).bot_checkpoints,
    {
        if self.phase != HillRacePhase::Idle {
            return false;
        }
        self.phase = HillRacePhase::Countdown;
        self.player_checkpoints = [false; 13];
        self.bot_checkpoints = [false; 13];
        true
    }

    /// The countdown ran out: the race is on.
    pub fn countdown_finished(&mut self)
        requires
            old(self).phase == HillRacePhase::Countdown,
        ensures
            final(self).phase == HillRacePhase::Racing,
            final(self).player_checkpoints == old(self).player_checkpoints,
            final(self).bot_checkpoints == old(self).bot_checkpoints,
    {
        self.phase = HillRacePhase::Racing;
    }

    /// The player touched checkpoint `i` (any order; repeats change nothing).
    pub fn player_reached(&mut self, i: usize)
        requires
            i < NUM_CHECKPOINTS,
        ensures
            final(self).player_checkpoints@ == old(self).player_checkpoints@.update(i as int, true),
            final(self).phase == old(self).phase,
            final(self).bot_checkpoints == old(self).bot_checkpoints,
    {
        self.player_checkpoints[i] = true;
    }

    /// The bot passed checkpoint `i`.
    pub fn bot_reached(&mut self, i: usize)
        requires
            i < NUM_CHECKPOINTS,
        ensures
            final(self).bot_checkpoints@ == old(self).bot_checkpoints@.update(i as int, true),
            final(self).phase == old(self).phase,
            final(self).player_checkpoints == old(self).player_checkpoints,
    {
        self.bot_checkpoints[i] = true;
    }

    /// How many checkpoints the player has reached.
    pub fn reached_count(&self) -> (n: usize)
        ensures
            n == count_true(self.player_checkpoints@),
            n <= NUM_CHECKPOINTS,
            (n == NUM_CHECKPOINTS) == (forall|i: int| 0 <= i < 13 ==> #[trigger] self.player_checkpoints@[i]),
    {
        let mut n: usize = 0;
        let mut i: usize = 0;
        while i < NUM_CHECKPOINTS
            invariant
                i <= NUM_CHECKPOINTS,
                n == count_true(self.player_checkpoints@.take(i as int)),
                n <= i,
            decreases NUM_CHECKPOINTS - i,
        {
            proof {
                assert(self.player_checkpoints@.take(i as int + 1).drop_last() =~= self.player_checkpoints@.take(i as int));
            }
            if self.player_checkpoints[i] {
                n = n + 1;
            }
            i += 1;
        }
        proof {
            assert(self.player_checkpoints@.take(13) =~= self.player_checkpoints@);
            lemma_count_all(self.player_checkpoints@);
        }
        n
    }

    /// One frame of racing: with every checkpoint reached and the player back
    /// at the start, the player wins; otherwise a bot that finished its lap
    /// wins. Nothing happens outside the racing phase.
    pub fn racing_step(&mut self, at_start: bool, bot_finished: bool) -> (phase: HillRacePhase)
        ensures
            phase == final(self).phase,
            final(self).player_checkpoints == old(self).player_checkpoints,
            final(self).bot_checkpoints == old(self).bot_checkpoints,
            final(self).phase == (if old(self).phase != HillRacePhase::Racing {
                old(self).phase
            } else if (forall|i: int| 0 <= i < 13 ==> #[trigger] old(self).player_checkpoints@[i]) && at_start {
                HillRacePhase::Won
            } else if bot_finished {
                HillRacePhase::Lost
            } else {
                HillRacePhase::Racing
            }),
    {
        if self.phase != HillRacePhase::Racing {
            return self.phase;
        }
        let all = self.reached_count() == NUM_CHECKPOINTS;
        if all && at_start {
            self.phase = HillRacePhase::Won;
        } else if bot_finished {
            self.phase = HillRacePhase::Lost;
        }
        self.phase
    }

    /// The result banner timed out: back to idle with every checkpoint cleared.
    pub fn result_finished(&mut self)
        requires
            old(self).phase == HillRacePhase::Won || old(self).phase == HillRacePhase::Lost,
        ensures
            final(self).phase == HillRacePhase::Idle,
            all_clear(final(self).player_checkpoints@),
            all_clear(final(self).bot_checkpoints@),
    {
        self.phase = HillRacePhase::Idle;
        self.player_checkpoints = [false; 13];
        self.bot_checkpoints = [false; 13];
    }
}

/// Marking an entry raises the count by one exactly when it was unmarked;
/// nothing marked counts zero; everything marked counts the length.
pub proof fn lemma_count_marks(s: Seq<bool>, i: int)
    requires
        0 <= i < s.len(),
    ensures
        count_true(s.update(i, true)) == count_true(s) + (if s[i] { 0int } else { 1int }),
        (forall|j: int| 0 <= j < s.len() ==> !#[trigger] s[j]) ==> count_true(s) == 0,
        (forall|j: int| 0 <= j < s.len() ==> #[trigger] s[j]) ==> count_true(s) == s.len(),
    decreases s.len(),
{
    let u = s.update(i, true);
    if i == s.len() - 1 {
        assert(u.drop_last() =~= s.drop_last());
    } else {
        assert(u.drop_last() =~= s.drop_last().update(i, true));
        lemma_count_marks(s.drop_last(), i);
    }
    lemma_count_extremes(s);
}

/// All-unmarked counts zero and all-marked counts the length.
proof fn lemma_count_extremes(s: Seq<bool>)
    ensures
        (forall|j: int| 0 <= j < s.len() ==> !#[trigger] s[j]) ==> count_true(s) == 0,
        (forall|j: int| 0 <= j < s.len() ==> #[trigger] s[j]) ==> count_true(s) == s.len(),
    decreases s.len(),
{
    if s.len() > 0 {
        lemma_count_extremes(s.drop_last());
        assert forall|j: int| 0 <= j < s.drop_last().len() implies #[trigger] s.drop_last()[j] == s[j] by {}
    }
}

} // verus!
