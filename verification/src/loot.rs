//! Level 10: the goblin's loot. Drops are rolled from a weighted table; the
//! player's record of drops decides whether the golden key has been found.
use vstd::prelude::*;

verus! {

/// Item id of the golden key.
pub const GOLDEN_KEY: u32 = 3;

/// What the player has been dropped so far.
#[derive(Clone, Copy, Debug, PartialEq, Eq, Structural, Default)]
pub struct PlayerLoot {
    pub has_golden_key: bool,
    pub total_drops: u32,
    pub last_drop: Option<u32>,
}

/// Records one drop: counts it, remembers it, and notes a golden key.
pub fn record_drop(loot: &mut PlayerLoot, item_id: u32)
    requires
        old(loot).total_drops < u32::MAX,
    ensures
        final(loot).total_drops == old(loot).total_drops + 1,
        final(loot).last_drop == Some(item_id),
        final(loot).has_golden_key == (old(loot).has_golden_key || item_id == GOLDEN_KEY),
{
    loot.total_drops = loot.total_drops + 1;
    loot.last_drop = Some(item_id);
    if item_id == GOLDEN_KEY {
        loot.has_golden_key = true;
    }
}

/// Whether the door can be opened.
pub fn check_has_key(loot: &PlayerLoot) -> (b: bool)
    ensures
        b == loot.has_golden_key,
{
    loot.has_golden_key
}

} // verus!
