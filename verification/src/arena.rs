//! Level 9: the rigged arena. Fighters carry a fixed-size name; the outcome
//! is decided by which teams still have someone standing.
use vstd::prelude::*;
use vstd::string::StringSliceAdditionalSpecFns;

verus! {

/// Outcome code of the fight: `1` won, `-1` lost, `0` still going.
pub open spec fn arena_outcome(allies_alive: bool, enemies_alive: bool) -> i32 {
    if allies_alive && !enemies_alive {
        1i32
    } else if !allies_alive {
        -1i32
    } else {
        0i32
    }
}

/// Won when an ally stands and no enemy does; lost whenever no ally stands
/// (a wipe of both teams counts as a loss); otherwise the fight goes on.
pub fn check_arena_victory(allies_alive: bool, enemies_alive: bool) -> (r: i32)
    ensures
        r == arena_outcome(allies_alive, enemies_alive),
{
    match (allies_alive, enemies_alive) {
        (true, false) => 1,
        (false, _) => -1,
        _ => 0,
    }
}

/// A fighter's name as a zero-padded 16-byte field: the first 16 bytes of
/// the text, then zeros.
pub fn make_name(s: &str) -> (arr: [u8; 16])
    ensures
        forall|i: int|
            0 <= i < 16 ==> #[trigger] arr@[i] == (if i < s.spec_bytes().len() {
                s.spec_bytes()[i]
            } else {
                0u8
            }),
{
    let bytes = s.as_bytes();
    let mut arr = [0u8; 16];
    let mut i: usize = 0;
    while i < bytes.len() && i < 16
        invariant
            bytes@ == s.spec_bytes(),
            i <= 16,
            i <= bytes@.len(),
            forall|j: int| 0 <= j < i ==> #[trigger] arr@[j] == bytes@[j],
            forall|j: int| i <= j < 16 ==> #[trigger] arr@[j] == 0u8,
        decreases 16 - i,
    {
        arr[i] = bytes[i];
        i += 1;
    }
    arr
}

} // verus!
