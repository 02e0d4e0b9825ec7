//! The level roster: the single table every other part of the game reads
//! (menu grid, keyboard shortcuts, scoreboard denominator, level-id to screen
//! mapping, the initial phase of a level).
use vstd::prelude::*;

verus! {

/// The top-level game screen: the menu, or a level identified by its id.
#[derive(Clone, Copy, Debug, PartialEq, Eq, Structural, Hash)]
pub enum Screen {
    Menu,
    Level(u32),
}

/// One playable level.
#[derive(Clone, Copy, Debug)]
pub struct LevelInfo {
    /// Level id as shown in the menu and stored in the scoreboard.
    pub id: u32,
    /// Title shown on the menu button.
    pub name: &'static str,
    /// Hidden easter-egg level: listed in the menu only after `?` is pressed.
    pub hidden: bool,
    /// The level starts frozen behind a scripted intro (the race countdown).
    pub starts_frozen: bool,
}

/// The part of a roster row that the game logic reads: `(id, hidden, starts_frozen)`.
pub type LevelRow = (u32, bool, bool);

impl LevelInfo {
    pub open spec fn row(self) -> LevelRow {
        (self.id, self.hidden, self.starts_frozen)
    }

    /// Screen state entered when the level is launched.
    pub fn screen(&self) -> (s: Screen)
        ensures
            s == Screen::Level(self.id),
    {
        Screen::Level(self.id)
    }
}

/// Every level, in menu order: regular levels first, hidden ones after.
pub open spec fn roster() -> Seq<LevelRow> {
    seq![
        (1u32, false, false),
        (2u32, false, false),
        (3u32, false, false),
        (4u32, false, false),
        (5u32, false, true),
        (101u32, true, false),
        (103u32, true, false),
    ]
}

/// Menu titles of the roster rows, in the same order.
pub open spec fn roster_names() -> Seq<Seq<char>> {
    seq![
        "The Password Gate"@,
        "The Cannon Gauntlet"@,
        "The Countdown"@,
        "The Invisible Maze"@,
        "The Rigged Race"@,
        "The Hill Fortress"@,
        "The Indoor Waterpark"@,
    ]
}

/// A level is listed in the menu when it is regular, or once hidden levels are revealed.
pub open spec fn listed(revealed: bool) -> spec_fn(LevelRow) -> bool {
    |r: LevelRow| revealed || !r.1
}

/// The rows the player can currently pick, in menu order.
pub open spec fn visible_rows(revealed: bool) -> Seq<LevelRow> {
    roster().filter(listed(revealed))
}

/// `levels` matches the roster row for row, titles included.
pub open spec fn matches_roster(levels: Seq<LevelInfo>) -> bool {
    &&& levels.len() == roster().len()
    &&& forall|i: int| 0 <= i < levels.len() ==> #[trigger] levels[i].row() == roster()[i]
    &&& forall|i: int| 0 <= i < levels.len() ==> #[trigger] levels[i].name@ == roster_names()[i]
}

/// The roster table.
pub fn levels() -> (r: Vec<LevelInfo>)
    ensures
        matches_roster(r@),
{
    let v: Vec<LevelInfo> = vec![
        LevelInfo { id: 1, name: "The Password Gate", hidden: false, starts_frozen: false },
        LevelInfo { id: 2, name: "The Cannon Gauntlet", hidden: false, starts_frozen: false },
        LevelInfo { id: 3, name: "The Countdown", hidden: false, starts_frozen: false },
        LevelInfo { id: 4, name: "The Invisible Maze", hidden: false, starts_frozen: false },
        LevelInfo { id: 5, name: "The Rigged Race", hidden: false, starts_frozen: true },
        LevelInfo { id: 101, name: "The Hill Fortress", hidden: true, starts_frozen: false },
        LevelInfo { id: 103, name: "The Indoor Waterpark", hidden: true, starts_frozen: false },
    ];
    assert(v@.len() == 7);
    v
}

/// Whether some roster row has this id.
pub open spec fn on_roster(id: u32) -> bool {
    exists|i: int| 0 <= i < roster().len() && #[trigger] roster()[i].0 == id
}

/// The level with this id, if any.
pub fn info(id: u32) -> (r: Option<LevelInfo>)
    ensures
        r is Some <==> on_roster(id),
        r matches Some(l) ==> exists|i: int|
            0 <= i < roster().len() && #[trigger] roster()[i] == l.row() && l.id == id
                && l.name@ == roster_names()[i],
{
    let table = levels();
    let mut i: usize = 0;
    while i < table.len()
        invariant
            matches_roster(table@),
            i <= table.len(),
            forall|j: int| 0 <= j < i ==> #[trigger] roster()[j].0 != id,
        decreases table.len() - i,
    {
        proof {
            assert(table@[i as int].row() == roster()[i as int]);
            assert(table@[i as int].name@ == roster_names()[i as int]);
        }
        if table[i].id == id {
            assert(roster()[i as int].0 == id);
            return Some(table[i]);
        }
        i += 1;
    }
    None
}

/// Screen the given level id launches into, if the id is on the roster.
pub fn screen_for_level(id: u32) -> (r: Option<Screen>)
    ensures
        r == (if on_roster(id) { Some(Screen::Level(id)) } else { None::<Screen> }),
{
    match info(id) {
        Some(l) => Some(l.screen()),
        None => None,
    }
}

/// Levels the player can currently pick, in menu order. Hidden levels are
/// included only once they have been revealed.
pub fn visible(revealed: bool) -> (r: Vec<LevelInfo>)
    ensures
        r@.map_values(|l: LevelInfo| l.row()) == visible_rows(revealed),
        forall|i: int| 0 <= i < r@.len() ==> exists|j: int|
            0 <= j < roster().len() && #[trigger] r@[i].row() == roster()[j]
                && r@[i].name@ == roster_names()[j],
{
    let table = levels();
    let mut out: Vec<LevelInfo> = Vec::new();
    let mut i: usize = 0;
    while i < table.len()
        invariant
            matches_roster(table@),
            i <= table.len(),
            out@.map_values(|l: LevelInfo| l.row()) == roster().take(i as int).filter(listed(revealed)),
            forall|k: int| 0 <= k < out@.len() ==> exists|j: int|
                0 <= j < roster().len() && #[trigger] out@[k].row() == roster()[j]
                    && out@[k].name@ == roster_names()[j],
        decreases table.len() - i,
    {
        proof {
            reveal_with_fuel(Seq::filter, 1);
            assert(roster().take(i as int + 1).drop_last() =~= roster().take(i as int));
        }
        proof {
            assert(table@[i as int].row() == roster()[i as int]);
            assert(table@[i as int].name@ == roster_names()[i as int]);
        }
        let l = table[i];
        let ghost before = out@;
        if revealed || !l.hidden {
            out.push(l);
            proof {
                assert(out@.map_values(|l: LevelInfo| l.row()) =~= before.map_values(
                    |l: LevelInfo| l.row(),
                ).push(l.row()));
            }
        }
        i += 1;
    }
    proof {
        assert(roster().take(7) =~= roster());
    }
    out
}

/// How many levels count toward the scoreboard right now: hidden levels only
/// join the denominator once revealed.
pub fn visible_count(revealed: bool) -> (n: u32)
    ensures
        n == visible_rows(revealed).len(),
{
    let v = visible(revealed);
    proof {
        assert(v@.map_values(|l: LevelInfo| l.row()).len() == v@.len());
        lemma_visible_rows(revealed);
    }
    v.len() as u32
}

/// The filtered roster, spelled out: all seven rows when revealed, the five
/// regular ones otherwise.
pub proof fn lemma_visible_rows(revealed: bool)
    ensures
        visible_rows(revealed) == (if revealed { roster() } else { roster().take(5) }),
{
    reveal_with_fuel(Seq::filter, 8);
    assert(roster().drop_last() =~= seq![
        (1u32, false, false), (2u32, false, false), (3u32, false, false), (4u32, false, false),
        (5u32, false, true), (101u32, true, false)]);
    assert(roster().drop_last().drop_last() =~= roster().take(5));
    assert(roster().take(5).drop_last() =~= roster().take(4));
    assert(roster().take(4).drop_last() =~= roster().take(3));
    assert(roster().take(3).drop_last() =~= roster().take(2));
    assert(roster().take(2).drop_last() =~= roster().take(1));
    assert(roster().take(1).drop_last() =~= roster().take(0));
    if revealed {
        assert(roster().filter(listed(revealed)) =~= roster());
    } else {
        assert(roster().take(5).filter(listed(revealed)) =~= roster().take(5));
        assert(roster().filter(listed(revealed)) =~= roster().take(5));
    }
}

/// No two roster rows share an id.
pub proof fn lemma_ids_unique()
    ensures
        forall|i: int, j: int|
            0 <= i < roster().len() && 0 <= j < roster().len() && i != j
                ==> #[trigger] roster()[i].0 != #[trigger] roster()[j].0,
{
}

/// Menu order never interleaves hidden levels: once a hidden level appears,
/// every level after it is hidden too.
pub proof fn lemma_hidden_levels_last()
    ensures
        forall|i: int, j: int|
            0 <= i <= j < roster().len() && #[trigger] roster()[i].1 ==> #[trigger] roster()[j].1,
{
}

/// Revealing never hides a level: every level listed before `?` is still listed after.
pub proof fn lemma_reveal_only_adds(row: LevelRow)
    ensures
        visible_rows(false).contains(row) ==> visible_rows(true).contains(row),
{
    lemma_visible_rows(false);
    lemma_visible_rows(true);
    if visible_rows(false).contains(row) {
        let k = choose|k: int| 0 <= k < roster().take(5).len() && roster().take(5)[k] == row;
        assert(roster()[k] == row);
    }
}

} // verus!
