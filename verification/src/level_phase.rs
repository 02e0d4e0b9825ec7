//! The phase every level runs in, and the shared victory / defeat flow:
//! a won level marks the scoreboard from the current screen's level id,
//! shows its overlay, and returns to the menu on any input; a lost level
//! shows its overlay and re-enters the level's retry phase on any input.
use crate::roster::{Screen, info, roster};
use crate::scoreboard::Scoreboard;
use vstd::prelude::*;

verus! {

/// The shared per-level phase.
#[derive(Clone, Copy, Debug, PartialEq, Eq, Structural, Hash)]
pub enum LevelPhase {
    /// The simulation is frozen behind the level's own overlay or cutscene.
    Frozen,
    Playing,
    /// Solved: the shared flow shows the victory overlay.
    Victory,
    /// Failed: the shared flow shows the defeat overlay.
    Defeat,
}

impl Default for LevelPhase {
    fn default() -> (p: Self)
        ensures
            p == LevelPhase::Playing,
    {
        LevelPhase::Playing
    }
}

/// Whether the roster marks level `id` as opening frozen.
pub open spec fn starts_frozen(id: u32) -> bool {
    exists|i: int| 0 <= i < roster().len() && #[trigger] roster()[i].0 == id && roster()[i].2
}

/// The phase exists on any level screen and starts frozen exactly for the
/// levels the roster marks so; the menu has no phase.
pub fn should_exist(source: Screen) -> (p: Option<LevelPhase>)
    ensures
        p == (match source {
            Screen::Level(id) => Some(if starts_frozen(id) { LevelPhase::Frozen } else { LevelPhase::Playing }),
            Screen::Menu => None::<LevelPhase>,
        }),
{
    match source {
        Screen::Level(id) => {
            let frozen = match info(id) {
                Some(l) => l.starts_frozen,
                None => false,
            };
            proof {
                crate::roster::lemma_ids_unique();
            }
            Some(if frozen { LevelPhase::Frozen } else { LevelPhase::Playing })
        },
        Screen::Menu => None,
    }
}

/// What the victory flow does this frame.
#[derive(Clone, Copy, Debug, PartialEq, Eq, Structural)]
pub enum VictoryAction {
    /// First frame: the level was marked solved; spawn the overlay and give it
    /// a frame on screen before accepting a dismissal.
    ShowOverlay,
    /// Any input on a later frame: clear the overlay and go to the menu.
    ReturnToMenu,
    /// Overlay up, no input yet.
    Wait,
}

/// One frame of the victory flow.
pub fn victory_step(screen: Screen, overlay_shown: bool, any_input: bool, scoreboard: &mut Scoreboard) -> (a: VictoryAction)
    ensures
        !overlay_shown ==> a == VictoryAction::ShowOverlay && final(scoreboard)@ == (match screen {
            Screen::Level(id) => old(scoreboard)@.insert(id),
            Screen::Menu => old(scoreboard)@,
        }),
        overlay_shown ==> final(scoreboard)@ == old(scoreboard)@ && a == (if any_input {
            VictoryAction::ReturnToMenu
        } else {
            VictoryAction::Wait
        }),
{
    if !overlay_shown {
        if let Screen::Level(id) = screen {
            scoreboard.set_solved(id);
        }
        return VictoryAction::ShowOverlay;
    }
    if any_input {
        VictoryAction::ReturnToMenu
    } else {
        VictoryAction::Wait
    }
}

/// What the defeat flow does this frame.
#[derive(Clone, Copy, Debug, PartialEq, Eq, Structural)]
pub enum DefeatAction {
    /// First frame: spawn the overlay.
    ShowOverlay,
    /// Any input on a later frame: clear the overlay and re-enter this phase.
    Retry(LevelPhase),
    /// Overlay up, no input yet.
    Wait,
}

/// One frame of the defeat flow; `retry_to` is the phase a retry re-enters.
pub fn defeat_step(overlay_shown: bool, any_input: bool, retry_to: LevelPhase) -> (a: DefeatAction)
    ensures
        a == (if !overlay_shown {
            DefeatAction::ShowOverlay
        } else if any_input {
            DefeatAction::Retry(retry_to)
        } else {
            DefeatAction::Wait
        }),
{
    if !overlay_shown {
        DefeatAction::ShowOverlay
    } else if any_input {
        DefeatAction::Retry(retry_to)
    } else {
        DefeatAction::Wait
    }
}

/// A level entity tagged with the level's marker, and whether its parent
/// carries the marker too.
#[derive(Clone, Copy, Debug)]
pub struct MarkedEntity {
    pub id: u64,
    pub parent_marked: bool,
}

/// The marked entities to despawn recursively on level exit: those whose
/// parent is not marked (a marked parent's recursive despawn takes its
/// children with it, and despawning them twice is an error).
pub fn despawn_roots(entities: &Vec<MarkedEntity>) -> (roots: Vec<u64>)
    ensures
        roots@ == entities@.filter(|e: MarkedEntity| !e.parent_marked).map_values(|e: MarkedEntity| e.id),
{
    let mut roots: Vec<u64> = Vec::new();
    let mut i: usize = 0;
    while i < entities.len()
        invariant
            i <= entities@.len(),
            roots@ == entities@.take(i as int).filter(|e: MarkedEntity| !e.parent_marked).map_values(
                |e: MarkedEntity| e.id,
            ),
        decreases entities@.len() - i,
    {
        proof {
            reveal_with_fuel(Seq::filter, 1);
            assert(entities@.take(i as int + 1).drop_last() =~= entities@.take(i as int));
        }
        let e = entities[i];
        let ghost before = entities@.take(i as int).filter(|e: MarkedEntity| !e.parent_marked);
        if !e.parent_marked {
            roots.push(e.id);
            proof {
                assert(entities@.take(i as int + 1).filter(|e: MarkedEntity| !e.parent_marked) == before.push(e));
                assert(roots@ =~= before.push(e).map_values(|e: MarkedEntity| e.id));
            }
        }
        i += 1;
    }
    proof {
        assert(entities@.take(entities@.len() as int) =~= entities@);
    }
    roots
}

/// Nothing leaks on level exit: every marked entity is either despawned as a
/// root or sits under a marked parent whose recursive despawn removes it.
pub proof fn lemma_despawn_covers_all(entities: Seq<MarkedEntity>, i: int)
    requires
        0 <= i < entities.len(),
    ensures
        entities[i].parent_marked || entities.filter(|e: MarkedEntity| !e.parent_marked).map_values(
            |e: MarkedEntity| e.id,
        ).contains(entities[i].id),
{
    if !entities[i].parent_marked {
        let f = entities.filter(|e: MarkedEntity| !e.parent_marked);
        entities.lemma_filter_contains(|e: MarkedEntity| !e.parent_marked, i);
        let j = choose|j: int| 0 <= j < f.len() && f[j] == entities[i];
        assert(f.map_values(|e: MarkedEntity| e.id)[j] == entities[i].id);
    }
}

/// Only the race opens frozen (for its countdown); every other id, on the
/// roster or not, starts playing.
pub proof fn lemma_only_race_starts_frozen(id: u32)
    ensures
        starts_frozen(id) <==> id == 5,
{
    if id == 5 {
        assert(roster()[4].0 == 5 && roster()[4].2);
    }
}

} // verus!
