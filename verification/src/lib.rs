//! Game rules of a small collection of debugger puzzle levels, with their
//! contracts: the level roster and scoreboard, the per-level puzzles, the
//! menu and input state machines, and the procedural generators.
pub mod roster;
pub mod scoreboard;
pub mod password;
pub mod cannon;
pub mod chest;
pub mod toll;
pub mod vault;
pub mod arena;
pub mod raw_mouse;
pub mod maze;
pub mod rng;
pub mod meadow;
pub mod menu;
pub mod level_phase;
pub mod controls;
pub mod loot;
pub mod waterpark;
pub mod hill_race;
pub mod frame_window;
