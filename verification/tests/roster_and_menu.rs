use debugger_challenges::menu::{
    menu_confirm, menu_key, menu_nav, shortcut_count, shortcut_hint, solved_and_total, visible_levels,
    MenuKeyAction,
};
use debugger_challenges::roster::{info, levels, screen_for_level, visible, visible_count, Screen};
use debugger_challenges::scoreboard::Scoreboard;
use std::collections::HashSet;

#[test]
fn ids_are_unique() {
    let ids: HashSet<u32> = levels().iter().map(|l| l.id).collect();
    assert_eq!(ids.len(), levels().len(), "duplicate level id in the roster");
}

#[test]
fn screen_lookup_round_trips() {
    for l in levels() {
        assert_eq!(screen_for_level(l.id), Some(Screen::Level(l.id)));
    }
    assert_eq!(screen_for_level(0), None);
    assert_eq!(screen_for_level(9999), None);
}

#[test]
fn hidden_levels_only_listed_once_revealed() {
    let all = levels();
    let hidden_count = all.iter().filter(|l| l.hidden).count();
    assert!(hidden_count > 0, "test is vacuous without hidden levels");
    assert_eq!(visible_count(false) as usize, all.len() - hidden_count);
    assert_eq!(visible_count(true) as usize, all.len());
    assert!(visible(false).iter().all(|l| !l.hidden));
}

#[test]
fn regular_levels_come_before_hidden_ones() {
    let all = levels();
    let first_hidden = all.iter().position(|l| l.hidden);
    if let Some(i) = first_hidden {
        assert!(all[i..].iter().all(|l| l.hidden), "menu order interleaves hidden levels");
    }
}

#[test]
fn roster_rows_are_the_seven_levels() {
    let ids: Vec<u32> = levels().iter().map(|l| l.id).collect();
    assert_eq!(ids, vec![1, 2, 3, 4, 5, 101, 103]);
    assert_eq!(levels()[0].name, "The Password Gate");
    assert_eq!(levels()[6].name, "The Indoor Waterpark");
    assert!(levels()[4].starts_frozen);
    assert_eq!(levels().iter().filter(|l| l.starts_frozen).count(), 1);
}

#[test]
fn info_finds_by_id() {
    let l = info(101).unwrap();
    assert_eq!(l.name, "The Hill Fortress");
    assert!(l.hidden);
    assert!(info(102).is_none());
    assert_eq!(l.screen(), Screen::Level(101));
}

#[test]
fn menu_lists_regular_levels_until_revealed() {
    assert_eq!(visible_levels(false), vec![1, 2, 3, 4, 5]);
    assert_eq!(visible_levels(true), vec![1, 2, 3, 4, 5, 101, 103]);
}

#[test]
fn scoreboard_line_counts_only_listed_levels() {
    let mut sb = Scoreboard::default();
    sb.set_solved(2);
    sb.set_solved(101);
    sb.set_solved(102);
    assert_eq!(solved_and_total(&sb, false), (1, 5));
    assert_eq!(solved_and_total(&sb, true), (2, 7));
}

#[test]
fn shortcut_hint_sized_to_roster() {
    assert_eq!(shortcut_count(false), 5);
    assert_eq!(shortcut_count(true), 7);
    assert_eq!(shortcut_hint(false), "Press 1-5 or click to start  |  D-pad + A on gamepad");
    assert_eq!(shortcut_hint(true), "Press 1-7 or click to start  |  D-pad + A on gamepad");
}

#[test]
fn digit_keys_launch_listed_levels() {
    assert_eq!(menu_key(false, "1"), MenuKeyAction::Launch(Screen::Level(1)));
    assert_eq!(menu_key(false, "5"), MenuKeyAction::Launch(Screen::Level(5)));
    assert_eq!(menu_key(false, "6"), MenuKeyAction::Ignore);
    assert_eq!(menu_key(true, "6"), MenuKeyAction::Launch(Screen::Level(101)));
    assert_eq!(menu_key(true, "7"), MenuKeyAction::Launch(Screen::Level(103)));
    assert_eq!(menu_key(true, "0"), MenuKeyAction::Ignore);
    assert_eq!(menu_key(true, "+2"), MenuKeyAction::Launch(Screen::Level(2)));
    assert_eq!(menu_key(true, "a"), MenuKeyAction::Ignore);
    assert_eq!(menu_key(false, "?"), MenuKeyAction::RevealHidden);
}

#[test]
fn gamepad_navigation_clamps_to_the_list() {
    assert_eq!(menu_nav(None, 1, 5), 1);
    assert_eq!(menu_nav(None, -1, 5), 0);
    assert_eq!(menu_nav(Some(4), 1, 5), 4);
    assert_eq!(menu_nav(Some(2), -1, 5), 1);
    assert_eq!(menu_nav(Some(6), 0, 7), 6);
    assert_eq!(menu_confirm(false, Some(0)), Some(Screen::Level(1)));
    assert_eq!(menu_confirm(false, Some(5)), None);
    assert_eq!(menu_confirm(true, Some(5)), Some(Screen::Level(101)));
    assert_eq!(menu_confirm(true, None), None);
}
