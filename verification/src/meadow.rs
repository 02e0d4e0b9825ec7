//! Level 102: the shifting meadow. Each round digs three to five 2x2 pit
//! holes into flat ground; holes are drawn at random from the flat
//! candidates and kept apart so they never merge into one big drop zone.
use crate::rng::{rng_next, rng_usize, usize_draw, xorshift};
use vstd::prelude::*;

verus! {

/// Cells per side of the terrain grid.
pub const GRID: i32 = 40;

/// A candidate hole: the grid coordinates of its top-left cell.
pub type Hole = (i32, i32);

/// Two holes are too close when their 2x2 centres are under eight world
/// units apart. Cells are two units wide, so that is a squared grid distance
/// under sixteen.
pub open spec fn too_close_pair(a: Hole, b: Hole) -> bool {
    (a.0 - b.0) * (a.0 - b.0) + (a.1 - b.1) * (a.1 - b.1) < 16
}

/// `pick` is too close to some already selected hole.
pub open spec fn too_close(selected: Seq<Hole>, pick: Hole) -> bool {
    exists|j: int| 0 <= j < selected.len() && too_close_pair(#[trigger] selected[j], pick)
}

/// Both coordinates lie on the terrain grid.
pub open spec fn on_grid(h: Hole) -> bool {
    0 <= h.0 < GRID && 0 <= h.1 < GRID
}

/// The greedy draw: while fewer than `target` holes are selected and
/// candidates remain, advance the generator, swap-remove the candidate at the
/// drawn index, and keep it unless it is too close to one already selected.
/// Returns the selection and the final generator state.
pub open spec fn select_from(cands: Seq<Hole>, rng: u64, selected: Seq<Hole>, target: nat) -> (Seq<Hole>, u64)
    decreases cands.len(),
{
    if selected.len() >= target || cands.len() == 0 {
        (selected, rng)
    } else {
        let r = xorshift(rng);
        let i = ((r as usize) as int) % (cands.len() as int);
        let pick = cands[i];
        let rest = cands.update(i, cands.last()).drop_last();
        if too_close(selected, pick) {
            select_from(rest, r, selected, target)
        } else {
            select_from(rest, r, selected.push(pick), target)
        }
    }
}

/// The greedy draw stops short only when it runs out of candidates: the
/// holes selected before it started stay first, it never selects more than
/// `target`, and when it ends with fewer than `target` holes every candidate
/// is either selected or too close to a selected hole.
pub proof fn lemma_select_reaches_target(cands: Seq<Hole>, rng: u64, selected: Seq<Hole>, target: nat)
    ensures
        ({
            let sel = select_from(cands, rng, selected, target).0;
            &&& selected.len() <= sel.len()
            &&& forall|j: int| 0 <= j < selected.len() ==> #[trigger] sel[j] == selected[j]
            &&& selected.len() <= target ==> sel.len() <= target
            &&& sel.len() < target ==> forall|k: int|
                0 <= k < cands.len() ==> sel.contains(#[trigger] cands[k]) || too_close(sel, cands[k])
        }),
    decreases cands.len(),
{
    if cands.len() == 0 || selected.len() >= target {
    } else {
        let r = xorshift(rng);
        let i = ((r as usize) as int) % (cands.len() as int);
        let pick = cands[i];
        let rest = cands.update(i, cands.last()).drop_last();
        let next = if too_close(selected, pick) { selected } else { selected.push(pick) };
        lemma_select_reaches_target(rest, r, next, target);
        let sel = select_from(rest, r, next, target).0;
        assert(select_from(cands, rng, selected, target).0 == sel);
        assert forall|j: int| 0 <= j < selected.len() implies #[trigger] sel[j] == selected[j] by {
            assert(sel[j] == next[j]);
        }
        if sel.len() < target {
            assert forall|k: int| 0 <= k < cands.len() implies sel.contains(#[trigger] cands[k]) || too_close(sel, cands[k]) by {
                if k == i {
                    if too_close(selected, pick) {
                        let j = choose|j: int| 0 <= j < selected.len() && too_close_pair(#[trigger] selected[j], pick);
                        assert(sel[j] == selected[j]);
                        assert(too_close_pair(sel[j], pick));
                    } else {
                        assert(sel[selected.len() as int] == next[selected.len() as int]);
                    }
                } else if k == cands.len() - 1 {
                    assert(rest[i] == cands[k]);
                } else {
                    assert(rest[k] == cands[k]);
                }
            }
        }
    }
}

/// Squared grid distance between two holes, computed without overflow for
/// on-grid holes.
fn too_close_exec(a: Hole, b: Hole) -> (r: bool)
    requires
        on_grid(a),
        on_grid(b),
    ensures
        r == too_close_pair(a, b),
{
    let dx = a.0 - b.0;
    let dz = a.1 - b.1;
    assert(0 <= dx * dx <= 1600 && 0 <= dz * dz <= 1600) by (nonlinear_arith)
        requires
            -40 < dx < 40,
            -40 < dz < 40,
    ;
    dx * dx + dz * dz < 16
}

/// Picks the pit holes for a round from the flat candidates (top-left cells
/// of 2x2 blocks on the grid): first the number wanted, three to five, then
/// the greedy draw.
pub fn choose_pit_holes(candidates: Vec<Hole>, rng: &mut u64) -> (selected: Vec<Hole>)
    requires
        forall|i: int| 0 <= i < candidates@.len() ==> on_grid(#[trigger] candidates@[i]),
    ensures
        ({
            let target = usize_draw(xorshift(*old(rng)), 3, 5);
            let (sel, r) = select_from(candidates@, xorshift(*old(rng)), Seq::empty(), target as nat);
            selected@ == sel && *final(rng) == r
        }),
        selected@.len() <= 5,
        forall|i: int| 0 <= i < selected@.len() ==> candidates@.contains(#[trigger] selected@[i]),
        forall|i: int, j: int|
            0 <= i < j < selected@.len() ==> !too_close_pair(#[trigger] selected@[i], #[trigger] selected@[j]),
        selected@.len() < usize_draw(xorshift(*old(rng)), 3, 5) ==> forall|k: int|
            0 <= k < candidates@.len() ==> selected@.contains(#[trigger] candidates@[k]) || too_close(
                selected@,
                candidates@[k],
            ),
{
    let target = rng_usize(rng, 3, 5);
    let ghost start_rng = *rng;
    let mut cands = candidates;
    let mut selected: Vec<Hole> = Vec::new();
    while selected.len() < target && cands.len() > 0
        invariant
            target <= 5,
            selected@.len() <= target,
            forall|i: int| 0 <= i < cands@.len() ==> on_grid(#[trigger] cands@[i]),
            forall|i: int| 0 <= i < cands@.len() ==> candidates@.contains(#[trigger] cands@[i]),
            forall|i: int| 0 <= i < selected@.len() ==> candidates@.contains(#[trigger] selected@[i]),
            forall|i: int| 0 <= i < selected@.len() ==> on_grid(#[trigger] selected@[i]),
            forall|i: int, j: int|
                0 <= i < j < selected@.len() ==> !too_close_pair(#[trigger] selected@[i], #[trigger] selected@[j]),
            select_from(cands@, *rng, selected@, target as nat) == select_from(
                candidates@,
                start_rng,
                Seq::empty(),
                target as nat,
            ),
        decreases cands@.len(),
    {
        let x = rng_next(rng);
        let i = (x as usize) % cands.len();
        let ghost c0 = cands@;
        let pick = cands.swap_remove(i);
        proof {
            assert(candidates@.contains(c0[i as int]));
            assert forall|k: int| 0 <= k < cands@.len() implies on_grid(#[trigger] cands@[k])
                && candidates@.contains(cands@[k]) by {
                if k == i as int {
                    assert(cands@[k] == c0[c0.len() - 1]);
                } else {
                    assert(cands@[k] == c0[k]);
                }
            }
        }
        let mut close = false;
        let mut j: usize = 0;
        while j < selected.len()
            invariant
                j <= selected@.len(),
                on_grid(pick),
                forall|t: int| 0 <= t < selected@.len() ==> on_grid(#[trigger] selected@[t]),
                close == exists|t: int| 0 <= t < j && too_close_pair(#[trigger] selected@[t], pick),
            decreases selected@.len() - j,
        {
            if too_close_exec(selected[j], pick) {
                close = true;
            }
            j += 1;
        }
        if !close {
            let ghost s0 = selected@;
            selected.push(pick);
            proof {
                assert forall|a: int, b: int|
                    0 <= a < b < selected@.len() implies !too_close_pair(#[trigger] selected@[a], #[trigger] selected@[b]) by {
                    if b == s0.len() {
                        assert(selected@[a] == s0[a]);
                        if too_close_pair(s0[a], pick) {
                            assert(too_close(s0, pick));
                        }
                    } else {
                        assert(selected@[a] == s0[a] && selected@[b] == s0[b]);
                    }
                }
                assert forall|a: int| 0 <= a < selected@.len() implies candidates@.contains(#[trigger] selected@[a])
                    && on_grid(selected@[a]) by {
                    if a < s0.len() {
                        assert(selected@[a] == s0[a]);
                    }
                }
            }
        }
    }
    proof {
        lemma_select_reaches_target(candidates@, start_rng, Seq::empty(), target as nat);
    }
    selected
}

} // verus!
