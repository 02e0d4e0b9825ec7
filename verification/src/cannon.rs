//! Level 2: the cannon gauntlet. Health cubes heal up to a cap far below the
//! health needed to win, so the win is out of reach through normal play.
use vstd::prelude::*;

verus! {

/// Health lost per cannonball hit.
pub const DAMAGE_PER_HIT: i32 = 10;
/// Health restored by one health cube.
pub const HEAL_AMOUNT: i32 = 10;
/// Health cubes never heal above this.
pub const MAX_HEAL_HP: i32 = 100;
/// Health needed to win.
pub const WIN_HP: i32 = 1000;
/// Health the player starts (and respawns) with.
pub const START_HP: i32 = 100;

/// The player's health in the arena.
#[derive(Clone, Copy, Debug, PartialEq, Eq, Structural)]
pub struct PlayerHealth {
    pub current: i32,
}

impl Default for PlayerHealth {
    fn default() -> (h: Self)
        ensures
            h.current == START_HP,
    {
        PlayerHealth { current: START_HP }
    }
}

/// Health after a hit of `damage`: never below zero.
pub open spec fn after_damage(current: int, damage: int) -> int {
    if current - damage < 0 { 0 } else { current - damage }
}

/// Health after collecting a cube worth `heal`: never above the cap.
pub open spec fn after_heal(current: int, heal: int) -> int {
    if current + heal > MAX_HEAL_HP { MAX_HEAL_HP as int } else { current + heal }
}

/// The level is won once health reaches the winning threshold.
pub fn check_health_victory(health: &PlayerHealth) -> (won: bool)
    ensures
        won == (health.current >= WIN_HP),
{
    health.current >= WIN_HP
}

/// A cannonball hit: subtracts `damage`, flooring at zero.
pub fn apply_cannon_damage(health: &mut PlayerHealth, damage: i32)
    requires
        i32::MIN <= old(health).current - damage <= i32::MAX,
    ensures
        final(health).current == after_damage(old(health).current as int, damage as int),
{
    health.current = health.current - damage;
    if health.current < 0 {
        health.current = 0;
    }
}

/// A health cube: adds `heal_amount`, capping at the heal cap.
pub fn collect_health_cube(health: &mut PlayerHealth, heal_amount: i32)
    requires
        i32::MIN <= old(health).current + heal_amount <= i32::MAX,
    ensures
        final(health).current == after_heal(old(health).current as int, heal_amount as int),
{
    health.current = health.current + heal_amount;
    if health.current > MAX_HEAL_HP {
        health.current = MAX_HEAL_HP;
    }
}

/// Where the arena goes after this frame's hits and pickups.
#[derive(Clone, Copy, Debug, PartialEq, Eq, Structural)]
pub enum CannonOutcome {
    Playing,
    Victory,
    Dead,
}

/// Victory takes precedence; otherwise the player dies at zero health.
pub fn cannon_outcome(health: &PlayerHealth) -> (o: CannonOutcome)
    ensures
        o == (if health.current >= WIN_HP {
            CannonOutcome::Victory
        } else if health.current <= 0 {
            CannonOutcome::Dead
        } else {
            CannonOutcome::Playing
        }),
{
    if check_health_victory(health) {
        CannonOutcome::Victory
    } else if health.current <= 0 {
        CannonOutcome::Dead
    } else {
        CannonOutcome::Playing
    }
}

/// Retrying after death restores the starting health.
pub fn respawn(health: &mut PlayerHealth)
    ensures
        final(health).current == START_HP,
{
    health.current = START_HP;
}

/// Health after a run of arena events, `true` for a cube pickup and `false`
/// for a cannonball hit, applied in order.
pub open spec fn after_events(current: int, events: Seq<bool>) -> int
    decreases events.len(),
{
    if events.len() == 0 {
        current
    } else {
        let next = if events[0] {
            after_heal(current, HEAL_AMOUNT as int)
        } else {
            after_damage(current, DAMAGE_PER_HIT as int)
        };
        after_events(next, events.drop_first())
    }
}

/// The win is impossible through normal play: from any health between zero
/// and the heal cap, every sequence of hits and pickups keeps health in that
/// range, which is below the winning threshold.
pub proof fn lemma_win_unreachable_by_play(current: int, events: Seq<bool>)
    requires
        0 <= current <= MAX_HEAL_HP,
    ensures
        0 <= after_events(current, events) <= MAX_HEAL_HP,
        after_events(current, events) < WIN_HP,
    decreases events.len(),
{
    if events.len() > 0 {
        let next = if events[0] {
            after_heal(current, HEAL_AMOUNT as int)
        } else {
            after_damage(current, DAMAGE_PER_HIT as int)
        };
        lemma_win_unreachable_by_play(next, events.drop_first());
    }
}

/// A hit takes exactly `damage` off while health covers it and leaves zero
/// otherwise: it never raises health and never drives it below zero.
pub proof fn lemma_hit_subtracts(current: int, damage: int)
    requires
        damage >= 0,
    ensures
        current >= damage ==> after_damage(current, damage) == current - damage,
        current < damage ==> after_damage(current, damage) == 0,
        after_damage(current, damage) >= 0,
        current >= 0 ==> after_damage(current, damage) <= current,
{
}

/// A cube adds exactly `heal` while the sum stays within the cap and lands on
/// the cap otherwise: it never lowers health below the cap and never lifts
/// it above.
pub proof fn lemma_cube_heals_to_cap(current: int, heal: int)
    requires
        heal >= 0,
    ensures
        current + heal <= MAX_HEAL_HP ==> after_heal(current, heal) == current + heal,
        current + heal > MAX_HEAL_HP ==> after_heal(current, heal) == MAX_HEAL_HP,
        after_heal(current, heal) <= MAX_HEAL_HP,
        current <= MAX_HEAL_HP ==> after_heal(current, heal) >= current,
{
}

} // verus!
