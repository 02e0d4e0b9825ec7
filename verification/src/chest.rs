//! Level 6: the treasure chests. Each chest costs one key; the key count sits
//! behind a heap pointer between sentinel padding words.
use vstd::prelude::*;

verus! {

/// Chests that must be opened to win.
pub const CHESTS_TO_WIN: u32 = 5;

/// The key count with sentinel padding on both sides.
pub struct KeyRing {
    pub _padding_a: [u32; 4],
    pub count: i32,
    pub _padding_b: [u32; 2],
}

/// The player's inventory; the key ring lives on the heap.
pub struct Inventory {
    pub keys: Box<KeyRing>,
}

impl Default for Inventory {
    fn default() -> (inv: Self)
        ensures
            inv.keys.count == 0,
            inv.keys._padding_a@ == seq![0xDEADBEEFu32, 0xDEADBEEFu32, 0xDEADBEEFu32, 0xDEADBEEFu32],
            inv.keys._padding_b@ == seq![0xCAFEBABEu32, 0xCAFEBABEu32],
    {
        let inv = Inventory {
            keys: Box::new(
                KeyRing {
                    _padding_a: [0xDEADBEEFu32; 4],
                    count: 0,
                    _padding_b: [0xCAFEBABEu32; 2],
                },
            ),
        };
        assert(inv.keys._padding_a@ =~= seq![0xDEADBEEFu32, 0xDEADBEEFu32, 0xDEADBEEFu32, 0xDEADBEEFu32]);
        assert(inv.keys._padding_b@ =~= seq![0xCAFEBABEu32, 0xCAFEBABEu32]);
        inv
    }
}

/// Number of chests opened so far.
#[derive(Clone, Copy, Debug, PartialEq, Eq, Structural, Default)]
pub struct ChestsOpened(pub u32);

/// Spends one key if there is one. The padding words are never touched.
pub fn try_open_chest(inventory: &mut Inventory) -> (opened: bool)
    ensures
        opened == (old(inventory).keys.count > 0),
        final(inventory).keys.count == (if opened {
            old(inventory).keys.count - 1
        } else {
            old(inventory).keys.count as int
        }),
        final(inventory).keys._padding_a == old(inventory).keys._padding_a,
        final(inventory).keys._padding_b == old(inventory).keys._padding_b,
{
    if inventory.keys.count > 0 {
        inventory.keys.count = inventory.keys.count - 1;
        true
    } else {
        false
    }
}

/// The level is won once enough chests are open.
pub fn check_all_chests_opened(opened: &ChestsOpened) -> (won: bool)
    ensures
        won == (opened.0 >= CHESTS_TO_WIN),
{
    opened.0 >= CHESTS_TO_WIN
}

/// What a press of the interact key did at a closed chest.
#[derive(Clone, Copy, Debug, PartialEq, Eq, Structural)]
pub enum ChestAttempt {
    /// A key was spent and the chest is now open.
    Opened,
    /// No key: show the "need a key" warning.
    NoKey,
}

/// The player presses the interact key next to a closed chest: a key opens
/// it and counts it; without a key, nothing changes.
pub fn attempt_chest(inventory: &mut Inventory, opened: &mut ChestsOpened) -> (a: ChestAttempt)
    requires
        old(opened).0 < u32::MAX,
    ensures
        a == (if old(inventory).keys.count > 0 { ChestAttempt::Opened } else { ChestAttempt::NoKey }),
        a == ChestAttempt::Opened ==> final(opened).0 == old(opened).0 + 1
            && final(inventory).keys.count == old(inventory).keys.count - 1,
        a == ChestAttempt::NoKey ==> final(opened).0 == old(opened).0
            && final(inventory).keys.count == old(inventory).keys.count,
        final(inventory).keys._padding_a == old(inventory).keys._padding_a,
        final(inventory).keys._padding_b == old(inventory).keys._padding_b,
{
    if try_open_chest(inventory) {
        opened.0 = opened.0 + 1;
        ChestAttempt::Opened
    } else {
        ChestAttempt::NoKey
    }
}

/// Keys left after `n` attempts starting from `keys` keys.
pub open spec fn keys_after(keys: int, n: nat) -> int
    decreases n,
{
    if n == 0 {
        keys
    } else {
        let k = keys_after(keys, (n - 1) as nat);
        if k > 0 { k - 1 } else { k }
    }
}

/// Chests opened by `n` attempts starting from `keys` keys.
pub open spec fn opened_after(keys: int, n: nat) -> int
    decreases n,
{
    if n == 0 {
        0
    } else {
        opened_after(keys, (n - 1) as nat) + (if keys_after(keys, (n - 1) as nat) > 0 { 1int } else { 0int })
    }
}

/// Every chest costs a key: however many times the player tries, the chests
/// opened plus the keys left equal the keys held at the start (for a
/// non-negative key count), so the number opened never exceeds the keys held.
pub proof fn lemma_chests_cost_keys(keys: int, n: nat)
    requires
        keys >= 0,
    ensures
        opened_after(keys, n) + keys_after(keys, n) == keys,
        keys_after(keys, n) >= 0,
        opened_after(keys, n) <= keys,
        opened_after(keys, n) == (if n <= keys { n as int } else { keys }),
    decreases n,
{
    if n > 0 {
        lemma_chests_cost_keys(keys, (n - 1) as nat);
    }
}

} // verus!
