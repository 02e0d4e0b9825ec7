use debugger_challenges::level_phase::{
    defeat_step, despawn_roots, should_exist, victory_step, DefeatAction, LevelPhase, MarkedEntity,
    VictoryAction,
};
use debugger_challenges::roster::Screen;
use debugger_challenges::scoreboard::Scoreboard;

#[test]
fn scoreboard_starts_empty() {
    let sb = Scoreboard::default();
    assert_eq!(sb.total_solved(), 0);
    assert_eq!(sb.total_challenges(), 8);
}

#[test]
fn scoreboard_counts_correctly() {
    let mut sb = Scoreboard::default();
    sb.set_solved(1);
    sb.set_solved(2);
    sb.set_solved(3);
    assert_eq!(sb.total_solved(), 3);
}

#[test]
fn scoreboard_all_solved() {
    let mut sb = Scoreboard::default();
    for level in [1, 2, 3, 4, 5, 101, 102, 103] {
        sb.set_solved(level);
    }
    assert_eq!(sb.total_solved(), 8);
    assert_eq!(sb.total_solved(), sb.total_challenges());
}

#[test]
fn is_solved_maps_correctly() {
    let mut sb = Scoreboard::default();
    sb.set_solved(4);
    assert!(sb.is_solved(4));
    assert!(!sb.is_solved(3));
    assert!(!sb.is_solved(0)); // invalid level
    assert!(!sb.is_solved(16)); // invalid level
}

#[test]
fn solving_twice_counts_once() {
    let mut sb = Scoreboard::new();
    sb.set_solved(5);
    sb.set_solved(5);
    assert_eq!(sb.total_solved(), 1);
    assert!(sb.is_solved(5));
}

#[test]
fn level_phase_follows_the_roster() {
    assert_eq!(should_exist(Screen::Menu), None);
    assert_eq!(should_exist(Screen::Level(1)), Some(LevelPhase::Playing));
    assert_eq!(should_exist(Screen::Level(5)), Some(LevelPhase::Frozen));
    assert_eq!(should_exist(Screen::Level(101)), Some(LevelPhase::Playing));
    assert_eq!(should_exist(Screen::Level(77)), Some(LevelPhase::Playing));
    assert_eq!(LevelPhase::default(), LevelPhase::Playing);
}

#[test]
fn victory_marks_the_current_level_then_waits_for_input() {
    let mut sb = Scoreboard::default();
    assert_eq!(victory_step(Screen::Level(3), false, true, &mut sb), VictoryAction::ShowOverlay);
    assert!(sb.is_solved(3));
    assert_eq!(sb.total_solved(), 1);
    assert_eq!(victory_step(Screen::Level(3), true, false, &mut sb), VictoryAction::Wait);
    assert_eq!(victory_step(Screen::Level(3), true, true, &mut sb), VictoryAction::ReturnToMenu);
    assert_eq!(sb.total_solved(), 1);
}

#[test]
fn defeat_retries_into_the_configured_phase() {
    assert_eq!(defeat_step(false, true, LevelPhase::Frozen), DefeatAction::ShowOverlay);
    assert_eq!(defeat_step(true, false, LevelPhase::Frozen), DefeatAction::Wait);
    assert_eq!(defeat_step(true, true, LevelPhase::Frozen), DefeatAction::Retry(LevelPhase::Frozen));
    assert_eq!(defeat_step(true, true, LevelPhase::Playing), DefeatAction::Retry(LevelPhase::Playing));
}

#[test]
fn despawn_skips_children_of_marked_parents() {
    let ents = vec![
        MarkedEntity { id: 10, parent_marked: false },
        MarkedEntity { id: 11, parent_marked: true },
        MarkedEntity { id: 12, parent_marked: false },
    ];
    assert_eq!(despawn_roots(&ents), vec![10, 12]);
    assert_eq!(despawn_roots(&Vec::new()), Vec::<u64>::new());
}
