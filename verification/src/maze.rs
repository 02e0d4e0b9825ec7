//! Recursive-backtracker maze on a 7x7 grid, for the hill fortress.
//!
//! The carver keeps a stack of cells; while the top cell has unvisited
//! neighbours, one of them (chosen by the caller's random pick) is carved
//! into and pushed, and dead ends are popped. The result is a perfect maze:
//! every cell is reachable from the start through open walls, and exactly
//! one wall is opened per cell beyond the first.
//!
//! Walls are stored row-major. `h_wall(r, c)` (rows 0..=7, columns 0..7) is
//! the horizontal wall between grid rows `r - 1` and `r` at column `c`;
//! `v_wall(r, c)` (rows 0..7, columns 0..=7) is the vertical wall between
//! columns `c - 1` and `c` in row `r`.
use vstd::prelude::*;

verus! {

/// Cells per side.
pub const SIDE: usize = 7;
/// Number of cells.
pub const CELLS: usize = 49;
/// Number of horizontal (and of vertical) wall slots.
pub const WALL_SLOTS: usize = 56;
/// The cell the carver starts from: row 6, column 3 (south-centre, by the entrance).
pub const START: usize = 45;

// ---------------------------------------------------------------- geometry

pub open spec fn row_of(k: int) -> int {
    k / 7
}

pub open spec fn col_of(k: int) -> int {
    k % 7
}

/// Index of horizontal wall slot (row `r` in 0..=7, column `c` in 0..7).
pub open spec fn h_index(r: int, c: int) -> int {
    r * 7 + c
}

/// Index of vertical wall slot (row `r` in 0..7, column `c` in 0..=7).
pub open spec fn v_index(r: int, c: int) -> int {
    r * 8 + c
}

/// Whether cell `k` has a neighbour in direction `d` (0 north, 1 south, 2 west, 3 east).
pub open spec fn has_neighbor(k: int, d: int) -> bool {
    if d == 0 {
        row_of(k) > 0
    } else if d == 1 {
        row_of(k) < 6
    } else if d == 2 {
        col_of(k) > 0
    } else {
        col_of(k) < 6
    }
}

/// The neighbour of cell `k` in direction `d`.
pub open spec fn neighbor(k: int, d: int) -> int {
    if d == 0 {
        k - 7
    } else if d == 1 {
        k + 7
    } else if d == 2 {
        k - 1
    } else {
        k + 1
    }
}

/// The opposite direction.
pub open spec fn opposite(d: int) -> int {
    if d == 0 {
        1
    } else if d == 1 {
        0
    } else if d == 2 {
        3
    } else {
        2
    }
}

/// Whether the wall between `k` and its neighbour in direction `d` is horizontal.
pub open spec fn wall_is_h(d: int) -> bool {
    d == 0 || d == 1
}

/// Slot index of the wall between `k` and its neighbour in direction `d`.
pub open spec fn wall_slot(k: int, d: int) -> int {
    let r = row_of(k);
    let c = col_of(k);
    if d == 0 {
        h_index(r, c)
    } else if d == 1 {
        h_index(r + 1, c)
    } else if d == 2 {
        v_index(r, c)
    } else {
        v_index(r, c + 1)
    }
}

/// Whether the wall between `k` and its neighbour in direction `d` is open.
pub open spec fn is_open(h: Seq<bool>, v: Seq<bool>, k: int, d: int) -> bool {
    if wall_is_h(d) {
        !h[wall_slot(k, d)]
    } else {
        !v[wall_slot(k, d)]
    }
}

/// `k` reaches the start cell through open walls in at most `fuel` steps.
pub open spec fn linked(h: Seq<bool>, v: Seq<bool>, k: int, fuel: nat) -> bool
    decreases fuel,
{
    k == START as int || (fuel > 0 && exists|d: int|
        #![trigger is_open(h, v, k, d)]
        0 <= d < 4 && has_neighbor(k, d) && is_open(h, v, k, d) && linked(
            h,
            v,
            neighbor(k, d),
            (fuel - 1) as nat,
        ))
}

/// Number of entries of `s` equal to `b`.
pub open spec fn count_of(s: Seq<bool>, b: bool) -> nat
    decreases s.len(),
{
    if s.len() == 0 {
        0
    } else {
        count_of(s.drop_last(), b) + (if s.last() == b { 1nat } else { 0nat })
    }
}

/// No wall on the outer boundary is open.
pub open spec fn boundary_closed(h: Seq<bool>, v: Seq<bool>) -> bool {
    &&& forall|c: int| 0 <= c < 7 ==> #[trigger] h[h_index(0, c)]
    &&& forall|c: int| 0 <= c < 7 ==> #[trigger] h[h_index(7, c)]
    &&& forall|r: int| 0 <= r < 7 ==> #[trigger] v[v_index(r, 0)]
    &&& forall|r: int| 0 <= r < 7 ==> #[trigger] v[v_index(r, 7)]
}

/// A perfect maze: closed boundary, every cell linked to the start, and as
/// many open walls as cells beyond the first (so the open walls form a
/// spanning tree of the grid).
pub open spec fn perfect_maze(h: Seq<bool>, v: Seq<bool>) -> bool {
    &&& h.len() == WALL_SLOTS
    &&& v.len() == WALL_SLOTS
    &&& boundary_closed(h, v)
    &&& forall|k: int| 0 <= k < CELLS ==> #[trigger] linked(h, v, k, (CELLS - 1) as nat)
    &&& count_of(h, false) + count_of(v, false) == CELLS - 1
}

/// Directions of the unvisited neighbours of cell `k`, in the order north,
/// south, west, east.
pub open spec fn frontier(visited: Seq<bool>, k: int) -> Seq<int> {
    (if has_neighbor(k, 0) && !visited[neighbor(k, 0)] { seq![0int] } else { Seq::<int>::empty() })
        + (if has_neighbor(k, 1) && !visited[neighbor(k, 1)] {
        seq![1int]
    } else {
        Seq::<int>::empty()
    }) + (if has_neighbor(k, 2) && !visited[neighbor(k, 2)] {
        seq![2int]
    } else {
        Seq::<int>::empty()
    }) + (if has_neighbor(k, 3) && !visited[neighbor(k, 3)] {
        seq![3int]
    } else {
        Seq::<int>::empty()
    })
}

// ---------------------------------------------------------------- carver

/// The carver: walls, visited cells, the backtracking stack, and (as proof
/// bookkeeping) each visited cell's visit rank and the direction of the cell
/// it was carved from.
pub struct MazeCarver {
    h: Vec<bool>,
    v: Vec<bool>,
    visited: Vec<bool>,
    stack: Vec<usize>,
    rank: Ghost<Seq<nat>>,
    parent_dir: Ghost<Seq<int>>,
    carves: Ghost<nat>,
}

impl MazeCarver {
    pub closed spec fn walls_h(&self) -> Seq<bool> {
        self.h@
    }

    pub closed spec fn walls_v(&self) -> Seq<bool> {
        self.v@
    }

    pub closed spec fn visited_cells(&self) -> Seq<bool> {
        self.visited@
    }

    pub closed spec fn stack_cells(&self) -> Seq<usize> {
        self.stack@
    }

    /// Number of walls carved so far.
    pub closed spec fn carved(&self) -> nat {
        self.carves@
    }

    /// The carver's bookkeeping is consistent.
    pub closed spec fn inv(&self) -> bool {
        inv_parts(self.h@, self.v@, self.visited@, self.stack@, self.rank@, self.parent_dir@, self.carves@)
    }

    /// A fresh carver: every wall closed, only the start visited, the start on the stack.
    pub fn new() -> (m: Self)
        ensures
            m.inv(),
            m.stack_cells() == seq![START],
            m.carved() == 0,
            m.walls_h() == Seq::new(WALL_SLOTS as nat, |i: int| true),
            m.walls_v() == Seq::new(WALL_SLOTS as nat, |i: int| true),
            m.visited_cells() == Seq::new(CELLS as nat, |i: int| i == START as int),
    {
        let h: Vec<bool> = vec![true; WALL_SLOTS];
        let v: Vec<bool> = vec![true; WALL_SLOTS];
        let mut visited: Vec<bool> = vec![false; CELLS];
        visited.set(START, true);
        let mut stack: Vec<usize> = Vec::new();
        stack.push(START);
        let m = MazeCarver {
            h,
            v,
            visited,
            stack,
            rank: Ghost(Seq::new(CELLS as nat, |i: int| 0nat)),
            parent_dir: Ghost(Seq::new(CELLS as nat, |i: int| 0int)),
            carves: Ghost(0nat),
        };
        proof {
            let h = m.h@;
            let v = m.v@;
            let vis = m.visited@;
            lemma_count_constant(h, true);
            lemma_count_constant(v, true);
            lemma_count_single(vis, START as int);
            assert(m.stack@ =~= seq![START]);
            reveal(stack_ok);
            reveal(finished_ok);
            reveal(walls_ok);
            reveal(parents_ok);
            reveal(ranks_ok);
            assert(stack_ok(m.stack@, vis));
            assert(finished_ok(vis, m.stack@)) by {
                assert forall|k: int, d: int|
                    0 <= k < CELLS && vis[k] && !m.stack@.contains(k as usize) && 0 <= d < 4
                        && #[trigger] has_neighbor(k, d) implies #[trigger] vis[neighbor(k, d)] by {
                    assert(k == START as int);
                    assert(m.stack@[0] == START);
                }
            }
            assert(walls_ok(h, v, vis));
            assert(parents_ok(h, v, vis, m.rank@, m.parent_dir@));
            assert(ranks_ok(vis, m.rank@, 0));
        }
        m
    }

    /// Whether the carver has backtracked all the way out.
    pub fn is_done(&self) -> (b: bool)
        ensures
            b == (self.stack_cells().len() == 0),
    {
        self.stack.len() == 0
    }

    /// Directions of the unvisited neighbours of cell `k`.
    fn frontier_of(&self, k: usize) -> (dirs: Vec<u8>)
        requires
            self.inv(),
            k < CELLS,
        ensures
            dirs@.len() == frontier(self.visited@, k as int).len(),
            forall|i: int| 0 <= i < dirs@.len() ==> dirs@[i] as int == #[trigger] frontier(self.visited@, k as int)[i],
    {
        let r = k / 7;
        let c = k % 7;
        let mut dirs: Vec<u8> = Vec::new();
        if r > 0 && !self.visited[k - 7] {
            dirs.push(0);
        }
        let ghost a = dirs@;
        if r < 6 && !self.visited[k + 7] {
            dirs.push(1);
        }
        let ghost b = dirs@;
        if c > 0 && !self.visited[k - 1] {
            dirs.push(2);
        }
        let ghost cc = dirs@;
        if c < 6 && !self.visited[k + 1] {
            dirs.push(3);
        }
        proof {
            let f = frontier(self.visited@, k as int);
            let ki = k as int;
            let s0 = if has_neighbor(ki, 0) && !self.visited@[neighbor(ki, 0)] { seq![0int] } else { Seq::<int>::empty() };
            let s1 = if has_neighbor(ki, 1) && !self.visited@[neighbor(ki, 1)] { seq![1int] } else { Seq::<int>::empty() };
            let s2 = if has_neighbor(ki, 2) && !self.visited@[neighbor(ki, 2)] { seq![2int] } else { Seq::<int>::empty() };
            let s3 = if has_neighbor(ki, 3) && !self.visited@[neighbor(ki, 3)] { seq![3int] } else { Seq::<int>::empty() };
            assert(f == s0 + s1 + s2 + s3);
            assert(a.map_values(|x: u8| x as int) =~= s0);
            assert(b.map_values(|x: u8| x as int) =~= s0 + s1);
            assert(cc.map_values(|x: u8| x as int) =~= s0 + s1 + s2);
            assert(dirs@.map_values(|x: u8| x as int) =~= s0 + s1 + s2 + s3);
            assert forall|i: int| 0 <= i < dirs@.len() implies dirs@[i] as int == #[trigger] f[i] by {
                assert(dirs@.map_values(|x: u8| x as int)[i] == dirs@[i] as int);
            }
        }
        dirs
    }

    /// Backtracks past dead ends. Returns the number of unvisited neighbours
    /// of the cell now on top of the stack, or `None` once the stack is empty
    /// (the maze is finished).
    pub fn frontier_size(&mut self) -> (n: Option<usize>)
        requires
            old(self).inv(),
        ensures
            final(self).inv(),
            final(self).walls_h() == old(self).walls_h(),
            final(self).walls_v() == old(self).walls_v(),
            final(self).carved() == old(self).carved(),
            final(self).visited_cells() == old(self).visited_cells(),
            final(self).stack_cells().len() <= old(self).stack_cells().len(),
            final(self).stack_cells() == old(self).stack_cells().take(final(self).stack_cells().len() as int),
            forall|i: int|
                final(self).stack_cells().len() <= i < old(self).stack_cells().len() ==> frontier(
                    old(self).visited_cells(),
                    #[trigger] old(self).stack_cells()[i] as int,
                ).len() == 0,
            match n {
                None => final(self).stack_cells().len() == 0,
                Some(n) => {
                    &&& final(self).stack_cells().len() > 0
                    &&& n == frontier(
                        final(self).visited_cells(),
                        final(self).stack_cells().last() as int,
                    ).len()
                    &&& n > 0
                },
            },
    {
        loop
            invariant
                self.inv(),
                self.h@ == old(self).h@,
                self.v@ == old(self).v@,
                self.carves@ == old(self).carves@,
                self.visited@ == old(self).visited@,
                self.stack@.len() <= old(self).stack@.len(),
                self.stack@ == old(self).stack@.take(self.stack@.len() as int),
                forall|i: int|
                    self.stack@.len() <= i < old(self).stack@.len() ==> frontier(
                        old(self).visited@,
                        #[trigger] old(self).stack@[i] as int,
                    ).len() == 0,
            decreases self.stack@.len(),
        {
            if self.stack.len() == 0 {
                return None;
            }
            proof {
                lemma_top(self.stack@, self.visited@);
            }
            let top = self.stack[self.stack.len() - 1];
            let dirs = self.frontier_of(top);
            if dirs.len() > 0 {
                return Some(dirs.len());
            }
            proof {
                lemma_pop_keeps(self.visited@, self.stack@);
                assert(old(self).stack@[self.stack@.len() - 1] == top);
            }
            let ghost before = self.stack@;
            self.stack.pop();
            proof {
                assert(self.stack@ =~= old(self).stack@.take(self.stack@.len() as int));
            }
        }
    }

    /// Carves from the cell on top of the stack into its `pick`-th unvisited
    /// neighbour (in the order north, south, west, east), marks it visited
    /// and pushes it.
    pub fn carve(&mut self, pick: usize)
        requires
            old(self).inv(),
            old(self).stack_cells().len() > 0,
            pick < frontier(old(self).visited_cells(), old(self).stack_cells().last() as int).len(),
        ensures
            final(self).inv(),
            final(self).carved() == old(self).carved() + 1,
            ({
                let top = old(self).stack_cells().last() as int;
                let d = frontier(old(self).visited_cells(), top)[pick as int];
                let n = neighbor(top, d);
                &&& final(self).stack_cells() == old(self).stack_cells().push(n as usize)
                &&& final(self).visited_cells() == old(self).visited_cells().update(n, true)
                &&& final(self).walls_h() == carved_h(old(self).walls_h(), top, d)
                &&& final(self).walls_v() == carved_v(old(self).walls_v(), top, d)
            }),
    {
        proof {
            lemma_top(self.stack@, self.visited@);
        }
        let top = self.stack[self.stack.len() - 1];
        let dirs = self.frontier_of(top);
        let d = dirs[pick];
        let ghost di = d as int;
        let ghost ti = top as int;
        let ghost f = frontier(self.visited@, ti);
        proof {
            assert(dirs@[pick as int] as int == f[pick as int]);
            lemma_frontier_dirs(self.visited@, ti, pick as int);
        }
        let r = top / 7;
        let c = top % 7;
        let next: usize;
        let ghost h0 = self.h@;
        let ghost v0 = self.v@;
        let ghost vis0 = self.visited@;
        proof {
            assert(inv_parts(h0, v0, vis0, self.stack@, self.rank@, self.parent_dir@, self.carves@));
            assert(self.stack@.last() == top);
        }
        if d == 0 {
            self.h.set(r * 7 + c, false);
            next = top - 7;
        } else if d == 1 {
            self.h.set((r + 1) * 7 + c, false);
            next = top + 7;
        } else if d == 2 {
            self.v.set(r * 8 + c, false);
            next = top - 1;
        } else {
            self.v.set(r * 8 + c + 1, false);
            next = top + 1;
        }
        let ghost ni = next as int;
        proof {
            assert(ni == neighbor(ti, di));
            assert(self.h@ == carved_h(h0, ti, di));
            assert(self.v@ == carved_v(v0, ti, di));
        }
        self.visited.set(next, true);
        let ghost st0 = self.stack@;
        self.stack.push(next);
        proof {
            let rank0 = self.rank@;
            let pd0 = self.parent_dir@;
            let carves0 = self.carves@;
            lemma_carve_keeps_inv(h0, v0, vis0, st0, rank0, pd0, carves0, ti, di);
            self.rank@ = rank0.update(ni, carves0 + 1);
            self.parent_dir@ = pd0.update(ni, opposite(di));
            self.carves@ = carves0 + 1;
        }
    }

    /// The finished walls, horizontal then vertical.
    pub fn into_walls(self) -> (walls: (Vec<bool>, Vec<bool>))
        requires
            self.inv(),
            self.stack_cells().len() == 0,
        ensures
            perfect_maze(walls.0@, walls.1@),
            walls.0@ == self.walls_h(),
            walls.1@ == self.walls_v(),
    {
        proof {
            lemma_finished_is_perfect(&self);
        }
        (self.h, self.v)
    }
}

/// Opens the entrance gap in the south boundary, below the start column.
pub fn open_entrance(h: &mut Vec<bool>)
    requires
        old(h)@.len() == WALL_SLOTS,
    ensures
        final(h)@ == old(h)@.update(h_index(7, 3), false),
{
    h.set(7 * 7 + 3, false);
}

/// Carving always terminates: a consistent carver has carved at most one
/// wall per cell beyond the first, and each carve adds one.
pub proof fn lemma_carves_bounded(m: &MazeCarver)
    requires
        m.inv(),
    ensures
        m.carved() <= CELLS - 1,
{
    lemma_count_le_len(m.visited@, true);
}

// ---------------------------------------------------------------- proofs

proof fn lemma_count_le_len(s: Seq<bool>, b: bool)
    ensures
        count_of(s, b) <= s.len(),
    decreases s.len(),
{
    if s.len() > 0 {
        lemma_count_le_len(s.drop_last(), b);
    }
}

/// Buffer sizes.
spec fn sizes_ok(h: Seq<bool>, v: Seq<bool>, vis: Seq<bool>, rank: Seq<nat>, pd: Seq<int>) -> bool {
    h.len() == WALL_SLOTS && v.len() == WALL_SLOTS && vis.len() == CELLS && rank.len() == CELLS
        && pd.len() == CELLS
}

/// Stack entries are visited cells.
#[verifier::opaque]
spec fn stack_ok(st: Seq<usize>, vis: Seq<bool>) -> bool {
    forall|i: int| 0 <= i < st.len() ==> (#[trigger] st[i]) < CELLS && vis[st[i] as int]
}

/// Popped cells are finished: every neighbour of a visited cell that is not
/// on the stack is visited.
#[verifier::opaque]
spec fn finished_ok(vis: Seq<bool>, st: Seq<usize>) -> bool {
    forall|k: int, d: int|
        0 <= k < CELLS && vis[k] && !st.contains(k as usize) && 0 <= d < 4 && #[trigger] has_neighbor(k, d)
            ==> #[trigger] vis[neighbor(k, d)]
}

/// The boundary stays closed; an open interior wall joins two visited cells.
#[verifier::opaque]
spec fn walls_ok(h: Seq<bool>, v: Seq<bool>, vis: Seq<bool>) -> bool {
    &&& boundary_closed(h, v)
    &&& forall|r: int, c: int|
        1 <= r < 7 && 0 <= c < 7 && !#[trigger] h[h_index(r, c)] ==> vis[(r - 1) * 7 + c] && vis[r * 7 + c]
    &&& forall|r: int, c: int|
        0 <= r < 7 && 1 <= c < 7 && !#[trigger] v[v_index(r, c)] ==> vis[r * 7 + c - 1] && vis[r * 7 + c]
}

/// Cell `k` hangs off a visited, earlier-ranked neighbour through an open wall.
spec fn parent_ok(h: Seq<bool>, v: Seq<bool>, vis: Seq<bool>, rank: Seq<nat>, pd: Seq<int>, k: int) -> bool {
    let d = pd[k];
    &&& 0 <= d < 4
    &&& has_neighbor(k, d)
    &&& vis[neighbor(k, d)]
    &&& is_open(h, v, k, d)
    &&& rank[neighbor(k, d)] < rank[k]
}

/// Every visited cell other than the start hangs off an earlier one.
#[verifier::opaque]
spec fn parents_ok(h: Seq<bool>, v: Seq<bool>, vis: Seq<bool>, rank: Seq<nat>, pd: Seq<int>) -> bool {
    forall|k: int| 0 <= k < CELLS && k != START as int && #[trigger] vis[k] ==> parent_ok(h, v, vis, rank, pd, k)
}

/// Ranks of visited cells never exceed the number of carves.
#[verifier::opaque]
spec fn ranks_ok(vis: Seq<bool>, rank: Seq<nat>, carves: nat) -> bool {
    forall|k: int| 0 <= k < CELLS && #[trigger] vis[k] ==> rank[k] <= carves
}

/// The carver invariant over its parts.
spec fn inv_parts(
    h: Seq<bool>,
    v: Seq<bool>,
    vis: Seq<bool>,
    st: Seq<usize>,
    rank: Seq<nat>,
    pd: Seq<int>,
    carves: nat,
) -> bool {
    &&& sizes_ok(h, v, vis, rank, pd)
    &&& vis[START as int]
    &&& rank[START as int] == 0
    &&& stack_ok(st, vis)
    &&& finished_ok(vis, st)
    &&& walls_ok(h, v, vis)
    &&& parents_ok(h, v, vis, rank, pd)
    &&& ranks_ok(vis, rank, carves)
    &&& count_of(vis, true) == carves + 1
    &&& count_of(h, false) + count_of(v, false) == carves
}

proof fn lemma_rc(r: int, c: int)
    requires
        0 <= r,
        0 <= c < 7,
    ensures
        row_of(r * 7 + c) == r,
        col_of(r * 7 + c) == c,
{
    vstd::arithmetic::div_mod::lemma_fundamental_div_mod_converse(r * 7 + c, 7, r, c);
}

proof fn lemma_cell(k: int)
    requires
        0 <= k < CELLS,
    ensures
        0 <= row_of(k) < 7,
        0 <= col_of(k) < 7,
        k == row_of(k) * 7 + col_of(k),
{
}

proof fn lemma_count_constant(s: Seq<bool>, b: bool)
    requires
        forall|i: int| 0 <= i < s.len() ==> s[i] == b,
    ensures
        count_of(s, b) == s.len(),
        count_of(s, !b) == 0,
    decreases s.len(),
{
    if s.len() > 0 {
        lemma_count_constant(s.drop_last(), b);
    }
}

proof fn lemma_count_single(s: Seq<bool>, j: int)
    requires
        0 <= j < s.len(),
        forall|i: int| 0 <= i < s.len() ==> s[i] == (i == j),
    ensures
        count_of(s, true) == 1,
    decreases s.len(),
{
    if s.len() - 1 == j {
        lemma_count_constant(s.drop_last(), false);
    } else {
        lemma_count_single(s.drop_last(), j);
    }
}

/// Flipping one entry from `!b` to `b` adds one to the count of `b`.
proof fn lemma_count_flip(s: Seq<bool>, j: int, b: bool)
    requires
        0 <= j < s.len(),
        s[j] == !b,
    ensures
        count_of(s.update(j, b), b) == count_of(s, b) + 1,
    decreases s.len(),
{
    let t = s.update(j, b);
    if j == s.len() - 1 {
        assert(t.drop_last() =~= s.drop_last());
    } else {
        assert(t.drop_last() =~= s.drop_last().update(j, b));
        lemma_count_flip(s.drop_last(), j, b);
    }
}

proof fn lemma_frontier_dirs(vis: Seq<bool>, k: int, i: int)
    requires
        0 <= k < CELLS,
        0 <= i < frontier(vis, k).len(),
    ensures
        0 <= frontier(vis, k)[i] < 4,
        has_neighbor(k, frontier(vis, k)[i]),
        !vis[neighbor(k, frontier(vis, k)[i])],
{
    let s0 = if has_neighbor(k, 0) && !vis[neighbor(k, 0)] { seq![0int] } else { Seq::<int>::empty() };
    let s1 = if has_neighbor(k, 1) && !vis[neighbor(k, 1)] { seq![1int] } else { Seq::<int>::empty() };
    let s2 = if has_neighbor(k, 2) && !vis[neighbor(k, 2)] { seq![2int] } else { Seq::<int>::empty() };
    let s3 = if has_neighbor(k, 3) && !vis[neighbor(k, 3)] { seq![3int] } else { Seq::<int>::empty() };
    let f = frontier(vis, k);
    assert(f == s0 + s1 + s2 + s3);
    let a = s0 + s1;
    let b = a + s2;
    if i < s0.len() {
        assert(f[i] == s0[i]);
    } else if i < a.len() {
        assert(f[i] == a[i]);
        assert(a[i] == s1[i - s0.len()]);
    } else if i < b.len() {
        assert(f[i] == b[i]);
        assert(b[i] == s2[i - a.len()]);
    } else {
        assert(f[i] == s3[i - b.len()]);
    }
}

/// A cell's frontier is empty exactly when all its neighbours are visited.
proof fn lemma_frontier_empty(vis: Seq<bool>, k: int)
    ensures
        frontier(vis, k).len() == 0 <==> (forall|d: int|
            0 <= d < 4 && #[trigger] has_neighbor(k, d) ==> vis[neighbor(k, d)]),
{
    if frontier(vis, k).len() == 0 {
        assert forall|d: int| 0 <= d < 4 && #[trigger] has_neighbor(k, d) implies vis[neighbor(k, d)] by {
            if d == 0 {} else if d == 1 {} else if d == 2 {} else {}
        }
    }
}

/// The horizontal walls after carving from `k` in direction `d`.
pub open spec fn carved_h(h: Seq<bool>, k: int, d: int) -> Seq<bool> {
    if wall_is_h(d) { h.update(wall_slot(k, d), false) } else { h }
}

/// The vertical walls after carving from `k` in direction `d`.
pub open spec fn carved_v(v: Seq<bool>, k: int, d: int) -> Seq<bool> {
    if wall_is_h(d) { v } else { v.update(wall_slot(k, d), false) }
}

/// The wall between `k` and its neighbour in direction `d` is an interior
/// slot; from the neighbour's side it is the same slot.
proof fn lemma_wall_slot(k: int, d: int)
    requires
        0 <= k < CELLS,
        0 <= d < 4,
        has_neighbor(k, d),
    ensures
        0 <= wall_slot(k, d) < WALL_SLOTS,
        0 <= neighbor(k, d) < CELLS,
        has_neighbor(neighbor(k, d), opposite(d)),
        neighbor(neighbor(k, d), opposite(d)) == k,
        wall_slot(neighbor(k, d), opposite(d)) == wall_slot(k, d),
        wall_is_h(opposite(d)) == wall_is_h(d),
{
    let r = row_of(k);
    let c = col_of(k);
    lemma_cell(k);
    if d == 0 {
        lemma_rc(r - 1, c);
    } else if d == 1 {
        lemma_rc(r + 1, c);
    } else if d == 2 {
        lemma_rc(r, c - 1);
    } else {
        lemma_rc(r, c + 1);
    }
}

/// The top of a non-empty stack is a visited cell.
proof fn lemma_top(st: Seq<usize>, vis: Seq<bool>)
    requires
        stack_ok(st, vis),
    ensures
        st.len() > 0 ==> st.last() < CELLS && vis[st.last() as int],
{
    reveal(stack_ok);
    if st.len() > 0 {
        assert(st[st.len() - 1] == st.last());
    }
}

/// Popping a finished top cell keeps the stack and finished-cell facts.
proof fn lemma_pop_keeps(vis: Seq<bool>, st: Seq<usize>)
    requires
        st.len() > 0,
        stack_ok(st, vis),
        finished_ok(vis, st),
        frontier(vis, st.last() as int).len() == 0,
    ensures
        stack_ok(st.drop_last(), vis),
        finished_ok(vis, st.drop_last()),
{
    reveal(stack_ok);
    reveal(finished_ok);
    let top = st.last() as int;
    lemma_frontier_empty(vis, top);
    let st2 = st.drop_last();
    assert forall|i: int| 0 <= i < st2.len() implies (#[trigger] st2[i]) < CELLS && vis[st2[i] as int] by {
        assert(st2[i] == st[i]);
    }
    assert forall|k: int, d: int|
        0 <= k < CELLS && vis[k] && !st2.contains(k as usize) && 0 <= d < 4 && #[trigger] has_neighbor(k, d)
        implies #[trigger] vis[neighbor(k, d)] by {
        if k != top && st.contains(k as usize) {
            let j = choose|j: int| 0 <= j < st.len() && st[j] == k as usize;
            assert(j != st.len() - 1);
            assert(st2[j] == k as usize);
        }
    }
}

/// Carving keeps the stack and finished-cell facts.
proof fn lemma_carve_stack(vis0: Seq<bool>, st0: Seq<usize>, k: int, n: int)
    requires
        vis0.len() == CELLS,
        stack_ok(st0, vis0),
        finished_ok(vis0, st0),
        st0.len() > 0,
        st0.last() == k as usize,
        0 <= n < CELLS,
    ensures
        stack_ok(st0.push(n as usize), vis0.update(n, true)),
        finished_ok(vis0.update(n, true), st0.push(n as usize)),
{
    reveal(stack_ok);
    reveal(finished_ok);
    let vis = vis0.update(n, true);
    let st = st0.push(n as usize);
    assert forall|i: int| 0 <= i < st.len() implies (#[trigger] st[i]) < CELLS && vis[st[i] as int] by {
        if i < st0.len() {
            assert(st[i] == st0[i]);
        }
    }
    assert forall|q: int, d: int|
        0 <= q < CELLS && vis[q] && !st.contains(q as usize) && 0 <= d < 4 && #[trigger] has_neighbor(q, d)
        implies #[trigger] vis[neighbor(q, d)] by {
        assert(q != n) by {
            assert(st[st0.len() as int] == n as usize);
        }
        if st0.contains(q as usize) {
            let j = choose|j: int| 0 <= j < st0.len() && st0[j] == q as usize;
            assert(st[j] == q as usize);
        }
        assert(vis0[neighbor(q, d)]);
    }
}

/// Carving opens a wall that was closed and keeps the wall facts.
proof fn lemma_carve_walls(h0: Seq<bool>, v0: Seq<bool>, vis0: Seq<bool>, k: int, d: int)
    requires
        h0.len() == WALL_SLOTS,
        v0.len() == WALL_SLOTS,
        vis0.len() == CELLS,
        walls_ok(h0, v0, vis0),
        0 <= k < CELLS,
        vis0[k],
        0 <= d < 4,
        has_neighbor(k, d),
        !vis0[neighbor(k, d)],
    ensures
        wall_is_h(d) ==> h0[wall_slot(k, d)],
        !wall_is_h(d) ==> v0[wall_slot(k, d)],
        walls_ok(carved_h(h0, k, d), carved_v(v0, k, d), vis0.update(neighbor(k, d), true)),
{
    reveal(walls_ok);
    let n = neighbor(k, d);
    let w = wall_slot(k, d);
    let h = carved_h(h0, k, d);
    let v = carved_v(v0, k, d);
    let vis = vis0.update(n, true);
    let r = row_of(k);
    let c = col_of(k);
    lemma_cell(k);
    lemma_wall_slot(k, d);
    if d == 0 {
        assert(!h0[h_index(r, c)] ==> vis0[(r - 1) * 7 + c]);
    } else if d == 1 {
        assert(!h0[h_index(r + 1, c)] ==> vis0[r * 7 + c + 7]);
    } else if d == 2 {
        assert(!v0[v_index(r, c)] ==> vis0[r * 7 + c - 1]);
    } else {
        assert(!v0[v_index(r, c + 1)] ==> vis0[r * 7 + c + 1]);
    }
    lemma_carve_boundary(h0, v0, k, d);
    assert forall|rr: int, cc: int|
        1 <= rr < 7 && 0 <= cc < 7 && !#[trigger] h[h_index(rr, cc)] implies vis[(rr - 1) * 7 + cc] && vis[rr * 7 + cc] by {
        if wall_is_h(d) && h_index(rr, cc) == w {
            if d == 0 {
                lemma_rc(rr, cc);
                lemma_rc(r, c);
            } else {
                lemma_rc(rr, cc);
                lemma_rc(r + 1, c);
            }
        } else {
            assert(!h0[h_index(rr, cc)]);
        }
    }
    assert forall|rr: int, cc: int|
        0 <= rr < 7 && 1 <= cc < 7 && !#[trigger] v[v_index(rr, cc)] implies vis[rr * 7 + cc - 1] && vis[rr * 7 + cc] by {
        if !wall_is_h(d) && v_index(rr, cc) == w {
        } else {
            assert(!v0[v_index(rr, cc)]);
        }
    }
}

/// Carving opens an interior wall, so the boundary stays closed.
proof fn lemma_carve_boundary(h0: Seq<bool>, v0: Seq<bool>, k: int, d: int)
    requires
        h0.len() == WALL_SLOTS,
        v0.len() == WALL_SLOTS,
        boundary_closed(h0, v0),
        0 <= k < CELLS,
        0 <= d < 4,
        has_neighbor(k, d),
    ensures
        boundary_closed(carved_h(h0, k, d), carved_v(v0, k, d)),
{
    let h = carved_h(h0, k, d);
    let v = carved_v(v0, k, d);
    let w = wall_slot(k, d);
    lemma_cell(k);
    assert forall|c: int| 0 <= c < 7 implies #[trigger] h[h_index(0, c)] by {
        assert(h0[h_index(0, c)]);
    }
    assert forall|c: int| 0 <= c < 7 implies #[trigger] h[h_index(7, c)] by {
        assert(h0[h_index(7, c)]);
    }
    assert forall|r: int| 0 <= r < 7 implies #[trigger] v[v_index(r, 0)] by {
        assert(v0[v_index(r, 0)]);
        if !wall_is_h(d) {
            assert(w != v_index(r, 0));
        }
    }
    assert forall|r: int| 0 <= r < 7 implies #[trigger] v[v_index(r, 7)] by {
        assert(v0[v_index(r, 7)]);
        if !wall_is_h(d) {
            assert(w != v_index(r, 7));
        }
    }
}

/// Carving keeps the parent links and rank bound; the new cell hangs off `k`.
proof fn lemma_carve_parents(
    h0: Seq<bool>,
    v0: Seq<bool>,
    vis0: Seq<bool>,
    rank0: Seq<nat>,
    pd0: Seq<int>,
    carves0: nat,
    k: int,
    d: int,
)
    requires
        sizes_ok(h0, v0, vis0, rank0, pd0),
        parents_ok(h0, v0, vis0, rank0, pd0),
        ranks_ok(vis0, rank0, carves0),
        0 <= k < CELLS,
        vis0[k],
        0 <= d < 4,
        has_neighbor(k, d),
        !vis0[neighbor(k, d)],
    ensures
        parents_ok(
            carved_h(h0, k, d),
            carved_v(v0, k, d),
            vis0.update(neighbor(k, d), true),
            rank0.update(neighbor(k, d), carves0 + 1),
            pd0.update(neighbor(k, d), opposite(d)),
        ),
        ranks_ok(vis0.update(neighbor(k, d), true), rank0.update(neighbor(k, d), carves0 + 1), carves0 + 1),
{
    reveal(parents_ok);
    reveal(ranks_ok);
    let n = neighbor(k, d);
    let h = carved_h(h0, k, d);
    let v = carved_v(v0, k, d);
    let vis = vis0.update(n, true);
    let rank = rank0.update(n, carves0 + 1);
    let pd = pd0.update(n, opposite(d));
    lemma_wall_slot(k, d);
    assert forall|q: int| 0 <= q < CELLS && q != START as int && #[trigger] vis[q] implies parent_ok(
        h,
        v,
        vis,
        rank,
        pd,
        q,
    ) by {
        if q == n {
            assert(rank0[k] <= carves0);
        } else {
            assert(vis0[q]);
            assert(parent_ok(h0, v0, vis0, rank0, pd0, q));
            let e = pd0[q];
            assert(neighbor(q, e) != n);
            lemma_wall_slot(q, e);
            if wall_is_h(e) {
                assert(h[wall_slot(q, e)] ==> h0[wall_slot(q, e)]);
            } else {
                assert(v[wall_slot(q, e)] ==> v0[wall_slot(q, e)]);
            }
        }
    }
    assert forall|q: int| 0 <= q < CELLS && #[trigger] vis[q] implies rank[q] <= carves0 + 1 by {
        if q != n {
            assert(vis0[q]);
        }
    }
}

/// Carving from the top cell `k` into its unvisited neighbour in direction
/// `d` keeps the invariant.
proof fn lemma_carve_keeps_inv(
    h0: Seq<bool>,
    v0: Seq<bool>,
    vis0: Seq<bool>,
    st0: Seq<usize>,
    rank0: Seq<nat>,
    pd0: Seq<int>,
    carves0: nat,
    k: int,
    d: int,
)
    requires
        inv_parts(h0, v0, vis0, st0, rank0, pd0, carves0),
        st0.len() > 0,
        st0.last() == k as usize,
        0 <= k < CELLS,
        vis0[k],
        0 <= d < 4,
        has_neighbor(k, d),
        !vis0[neighbor(k, d)],
    ensures
        inv_parts(
            carved_h(h0, k, d),
            carved_v(v0, k, d),
            vis0.update(neighbor(k, d), true),
            st0.push(neighbor(k, d) as usize),
            rank0.update(neighbor(k, d), carves0 + 1),
            pd0.update(neighbor(k, d), opposite(d)),
            carves0 + 1,
        ),
{
    let n = neighbor(k, d);
    let w = wall_slot(k, d);
    lemma_wall_slot(k, d);
    lemma_carve_stack(vis0, st0, k, n);
    lemma_carve_walls(h0, v0, vis0, k, d);
    lemma_carve_parents(h0, v0, vis0, rank0, pd0, carves0, k, d);
    lemma_count_flip(vis0, n, true);
    if wall_is_h(d) {
        lemma_count_flip(h0, w, false);
    } else {
        lemma_count_flip(v0, w, false);
    }
    assert(n != START as int);
}

/// Every cell of the grid is visited once no visited cell has an unvisited
/// neighbour: sweep up the start column, then out along each row.
proof fn lemma_all_visited(vis: Seq<bool>)
    requires
        vis.len() == CELLS,
        vis[START as int],
        forall|k: int, d: int|
            0 <= k < CELLS && vis[k] && 0 <= d < 4 && #[trigger] has_neighbor(k, d) ==> #[trigger] vis[neighbor(k, d)],
    ensures
        forall|k: int| 0 <= k < CELLS ==> #[trigger] vis[k],
{
    assert forall|k: int| 0 <= k < CELLS implies #[trigger] vis[k] by {
        lemma_cell(k);
        let r = row_of(k);
        let c = col_of(k);
        lemma_column(vis, r);
        if c <= 3 {
            lemma_west(vis, r, c);
        } else {
            lemma_east(vis, r, c);
        }
    }
}

proof fn lemma_column(vis: Seq<bool>, r: int)
    requires
        vis.len() == CELLS,
        vis[START as int],
        forall|k: int, d: int|
            0 <= k < CELLS && vis[k] && 0 <= d < 4 && #[trigger] has_neighbor(k, d) ==> #[trigger] vis[neighbor(k, d)],
        0 <= r <= 6,
    ensures
        vis[r * 7 + 3],
    decreases 6 - r,
{
    if r < 6 {
        lemma_column(vis, r + 1);
        lemma_rc(r + 1, 3);
        assert(has_neighbor((r + 1) * 7 + 3, 0));
        assert(vis[neighbor((r + 1) * 7 + 3, 0)]);
    }
}

proof fn lemma_west(vis: Seq<bool>, r: int, c: int)
    requires
        vis.len() == CELLS,
        forall|k: int, d: int|
            0 <= k < CELLS && vis[k] && 0 <= d < 4 && #[trigger] has_neighbor(k, d) ==> #[trigger] vis[neighbor(k, d)],
        0 <= r <= 6,
        0 <= c <= 3,
        vis[r * 7 + 3],
    ensures
        vis[r * 7 + c],
    decreases 3 - c,
{
    if c < 3 {
        lemma_west(vis, r, c + 1);
        lemma_rc(r, c + 1);
        assert(has_neighbor(r * 7 + c + 1, 2));
        assert(vis[neighbor(r * 7 + c + 1, 2)]);
    }
}

proof fn lemma_east(vis: Seq<bool>, r: int, c: int)
    requires
        vis.len() == CELLS,
        forall|k: int, d: int|
            0 <= k < CELLS && vis[k] && 0 <= d < 4 && #[trigger] has_neighbor(k, d) ==> #[trigger] vis[neighbor(k, d)],
        0 <= r <= 6,
        3 <= c <= 6,
        vis[r * 7 + 3],
    ensures
        vis[r * 7 + c],
    decreases c - 3,
{
    if c > 3 {
        lemma_east(vis, r, c - 1);
        lemma_rc(r, c - 1);
        assert(has_neighbor(r * 7 + c - 1, 3));
        assert(vis[neighbor(r * 7 + c - 1, 3)]);
    }
}

/// Linking is preserved by more fuel.
proof fn lemma_linked_fuel(h: Seq<bool>, v: Seq<bool>, k: int, f: nat, g: nat)
    requires
        linked(h, v, k, f),
        f <= g,
    ensures
        linked(h, v, k, g),
    decreases f,
{
    if k != START as int {
        let d = choose|d: int|
            #![trigger is_open(h, v, k, d)]
            0 <= d < 4 && has_neighbor(k, d) && is_open(h, v, k, d) && linked(h, v, neighbor(k, d), (f - 1) as nat);
        lemma_linked_fuel(h, v, neighbor(k, d), (f - 1) as nat, (g - 1) as nat);
        assert(is_open(h, v, k, d));
    }
}

/// A visited cell is linked to the start within its rank.
proof fn lemma_linked_by_rank(h: Seq<bool>, v: Seq<bool>, vis: Seq<bool>, rank: Seq<nat>, pd: Seq<int>, k: int)
    requires
        sizes_ok(h, v, vis, rank, pd),
        parents_ok(h, v, vis, rank, pd),
        0 <= k < CELLS,
        vis[k],
    ensures
        linked(h, v, k, rank[k]),
    decreases rank[k],
{
    reveal(parents_ok);
    if k != START as int {
        assert(parent_ok(h, v, vis, rank, pd, k));
        let d = pd[k];
        let nb = neighbor(k, d);
        lemma_wall_slot(k, d);
        lemma_linked_by_rank(h, v, vis, rank, pd, nb);
        lemma_linked_fuel(h, v, nb, rank[nb], (rank[k] - 1) as nat);
        assert(is_open(h, v, k, d));
    }
}

/// A finished carver (empty stack) holds a perfect maze.
proof fn lemma_finished_is_perfect(m: &MazeCarver)
    requires
        m.inv(),
        m.stack@.len() == 0,
    ensures
        perfect_maze(m.h@, m.v@),
{
    let h = m.h@;
    let v = m.v@;
    let vis = m.visited@;
    let rank = m.rank@;
    let pd = m.parent_dir@;
    reveal(finished_ok);
    reveal(walls_ok);
    reveal(ranks_ok);
    assert forall|k: int, d: int|
        0 <= k < CELLS && vis[k] && 0 <= d < 4 && #[trigger] has_neighbor(k, d) implies #[trigger] vis[neighbor(k, d)] by {
        assert(!m.stack@.contains(k as usize));
    }
    lemma_all_visited(vis);
    lemma_count_constant(vis, true);
    assert(m.carves@ == 48);
    assert forall|k: int| 0 <= k < CELLS implies #[trigger] linked(h, v, k, (CELLS - 1) as nat) by {
        lemma_linked_by_rank(h, v, vis, rank, pd, k);
        lemma_linked_fuel(h, v, k, rank[k], (CELLS - 1) as nat);
    }
}

} // verus!
