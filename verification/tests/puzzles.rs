use debugger_challenges::arena::{check_arena_victory, make_name};
use debugger_challenges::cannon::{
    apply_cannon_damage, cannon_outcome, check_health_victory, collect_health_cube, respawn, CannonOutcome,
    PlayerHealth, HEAL_AMOUNT, MAX_HEAL_HP, WIN_HP,
};
use debugger_challenges::chest::{attempt_chest, check_all_chests_opened, try_open_chest, ChestAttempt, ChestsOpened, Inventory};
use debugger_challenges::loot::{check_has_key, record_drop, PlayerLoot};
use debugger_challenges::password::{
    check_password, check_password_bytes, should_exist, ChallengePhase, PasswordPrompt, PromptKey, PromptOutcome,
};
use debugger_challenges::roster::Screen;
use debugger_challenges::toll::{compute_toll, try_pay_toll, PlayerWallet, TollState};

// --- password gate ---

#[test]
fn correct_password_accepted() {
    assert!(check_password("sesame"));
}

#[test]
fn wrong_password_rejected() {
    assert!(!check_password("password"));
    assert!(!check_password(""));
    assert!(!check_password("SESAME"));
    assert!(!check_password("sesam"));
    assert!(!check_password("sesamee"));
}

#[test]
fn password_is_byte_by_byte() {
    // Partial matches still fail
    assert!(!check_password("sesam\0"));
    assert!(!check_password("sesame\0"));
}

#[test]
fn short_and_long_inputs_are_rejected_without_panicking() {
    for len in 0..6 {
        assert!(!check_password(&"sesame"[..len]), "prefix of len {len}");
    }
    assert!(!check_password("sesameXX"));
    assert!(!check_password("a"));
    assert!(!check_password("aaaaaaaaaaaa"));
}

#[test]
fn debugger_scenario_find_password() {
    let found_password = std::str::from_utf8(b"sesame").unwrap();
    assert!(check_password(found_password));
}

#[test]
fn password_bytes_compare_exactly() {
    assert!(check_password_bytes(&[115, 101, 115, 97, 109, 101]));
    assert!(!check_password_bytes(&[115, 101, 115, 97, 109]));
    assert!(!check_password_bytes(&[]));
}

#[test]
fn prompt_phase_exists_only_on_the_password_level() {
    assert_eq!(should_exist(Screen::Level(1)), Some(ChallengePhase::Exploring));
    assert_eq!(should_exist(Screen::Level(2)), None);
    assert_eq!(should_exist(Screen::Menu), None);
}

#[test]
fn prompt_collects_printable_text_and_counts_wrong_guesses() {
    let mut p = PasswordPrompt::new();
    assert_eq!(p.handle_key(&PromptKey::Character("ses")), PromptOutcome::Continue);
    assert_eq!(p.handle_key(&PromptKey::Character("\u{e9}\t")), PromptOutcome::Continue);
    assert_eq!(p.typed_len(), 3);
    assert_eq!(p.handle_key(&PromptKey::Enter), PromptOutcome::Denied);
    assert_eq!(p.attempts(), 1);
    assert_eq!(p.handle_key(&PromptKey::Character("amx")), PromptOutcome::Continue);
    assert_eq!(p.handle_key(&PromptKey::Backspace), PromptOutcome::Continue);
    assert_eq!(p.handle_key(&PromptKey::Character("e")), PromptOutcome::Continue);
    assert_eq!(p.typed_len(), 6);
    assert_eq!(p.handle_key(&PromptKey::Other), PromptOutcome::Continue);
    assert_eq!(p.handle_key(&PromptKey::Enter), PromptOutcome::Granted);
    assert_eq!(p.attempts(), 1);
    assert_eq!(p.handle_key(&PromptKey::Escape), PromptOutcome::Cancelled);
}

#[test]
fn prompt_backspace_on_empty_is_harmless() {
    let mut p = PasswordPrompt::new();
    assert_eq!(p.handle_key(&PromptKey::Backspace), PromptOutcome::Continue);
    assert_eq!(p.typed_len(), 0);
    assert_eq!(p.handle_key(&PromptKey::Character(" ")), PromptOutcome::Continue);
    assert_eq!(p.typed_len(), 1);
}

// --- cannon gauntlet ---

#[test]
fn health_victory_requires_1000() {
    assert!(!check_health_victory(&PlayerHealth { current: 100 }));
    assert!(!check_health_victory(&PlayerHealth { current: 999 }));
    assert!(check_health_victory(&PlayerHealth { current: 1000 }));
    assert!(check_health_victory(&PlayerHealth { current: 2000 }));
}

#[test]
fn cannon_damage_reduces_health() {
    let mut hp = PlayerHealth { current: 100 };
    apply_cannon_damage(&mut hp, 10);
    assert_eq!(hp.current, 90);
}

#[test]
fn cannon_damage_floors_at_zero() {
    let mut hp = PlayerHealth { current: 5 };
    apply_cannon_damage(&mut hp, 20);
    assert_eq!(hp.current, 0);
}

#[test]
fn health_cube_heals_capped_at_100() {
    let mut hp = PlayerHealth { current: 50 };
    collect_health_cube(&mut hp, HEAL_AMOUNT);
    assert_eq!(hp.current, 60);

    let mut hp2 = PlayerHealth { current: 95 };
    collect_health_cube(&mut hp2, HEAL_AMOUNT);
    assert_eq!(hp2.current, MAX_HEAL_HP);
}

#[test]
fn win_impossible_through_normal_play() {
    let mut hp = PlayerHealth { current: 0 };
    for _ in 0..200 {
        collect_health_cube(&mut hp, HEAL_AMOUNT);
    }
    assert_eq!(hp.current, MAX_HEAL_HP);
    assert!(!check_health_victory(&hp));
}

#[test]
fn debugger_scenario_set_health_to_1000() {
    let mut hp = PlayerHealth { current: 100 };
    hp.current = WIN_HP; // debugger sets this
    assert!(check_health_victory(&hp));
}

#[test]
fn cannon_outcome_and_respawn() {
    assert_eq!(cannon_outcome(&PlayerHealth { current: 1000 }), CannonOutcome::Victory);
    assert_eq!(cannon_outcome(&PlayerHealth { current: 0 }), CannonOutcome::Dead);
    assert_eq!(cannon_outcome(&PlayerHealth { current: 40 }), CannonOutcome::Playing);
    let mut hp = PlayerHealth { current: 0 };
    respawn(&mut hp);
    assert_eq!(hp, PlayerHealth::default());
    assert_eq!(hp.current, 100);
}

// --- treasure chests ---

#[test]
fn inventory_starts_with_zero_keys() {
    let inv = Inventory::default();
    assert_eq!(inv.keys.count, 0);
}

#[test]
fn try_open_chest_fails_without_keys() {
    let mut inv = Inventory::default();
    assert!(!try_open_chest(&mut inv));
}

#[test]
fn try_open_chest_succeeds_with_keys() {
    let mut inv = Inventory::default();
    inv.keys.count = 5;
    assert!(try_open_chest(&mut inv));
    assert_eq!(inv.keys.count, 4);
}

#[test]
fn open_all_five_chests() {
    let mut inv = Inventory::default();
    inv.keys.count = 5;
    let mut opened = ChestsOpened(0);

    for _ in 0..5 {
        assert!(try_open_chest(&mut inv));
        opened.0 += 1;
    }

    assert!(check_all_chests_opened(&opened));
    assert_eq!(inv.keys.count, 0);
}

#[test]
fn five_chests_needed_for_victory() {
    assert!(!check_all_chests_opened(&ChestsOpened(0)));
    assert!(!check_all_chests_opened(&ChestsOpened(4)));
    assert!(check_all_chests_opened(&ChestsOpened(5)));
    assert!(check_all_chests_opened(&ChestsOpened(10)));
}

#[test]
fn padding_fields_are_decoys() {
    let inv = Inventory::default();
    assert_eq!(inv.keys._padding_a, [0xDEADBEEF; 4]);
    assert_eq!(inv.keys._padding_b, [0xCAFEBABE; 2]);
}

#[test]
fn debugger_scenario_set_key_count() {
    let mut inv = Inventory::default();
    inv.keys.count = 5; // debugger sets this
    let mut opened = ChestsOpened(0);

    for _ in 0..5 {
        assert!(try_open_chest(&mut inv));
        opened.0 += 1;
    }
    assert!(check_all_chests_opened(&opened));
}

#[test]
fn attempt_chest_counts_only_opened_chests() {
    let mut inv = Inventory::default();
    let mut opened = ChestsOpened::default();
    assert_eq!(attempt_chest(&mut inv, &mut opened), ChestAttempt::NoKey);
    assert_eq!(opened.0, 0);
    inv.keys.count = 1;
    assert_eq!(attempt_chest(&mut inv, &mut opened), ChestAttempt::Opened);
    assert_eq!(opened.0, 1);
    assert_eq!(inv.keys.count, 0);
    assert_eq!(inv.keys._padding_b, [0xCAFEBABE; 2]);
}

// --- toll road ---

#[test]
fn toll_computation_is_7_times_power_of_10() {
    assert_eq!(compute_toll(0), 7); // 7 * 10^0 = 7
    assert_eq!(compute_toll(1), 70); // 7 * 10^1 = 70
    assert_eq!(compute_toll(2), 700); // 7 * 10^2 = 700
}

#[test]
fn toll_values_are_7_77_777() {
    // The tolls are 7, 70 and 700: 777 in all, while the player has 10.
    let total = compute_toll(0) + compute_toll(1) + compute_toll(2);
    assert_eq!(total, 777);
}

#[test]
fn player_can_afford_first_toll() {
    let mut wallet = PlayerWallet::default();
    let cost = compute_toll(0);
    assert!(try_pay_toll(&mut wallet, cost));
    assert_eq!(wallet.gold, 3); // 10 - 7 = 3
}

#[test]
fn player_cannot_afford_second_toll() {
    let mut wallet = PlayerWallet::default();
    try_pay_toll(&mut wallet, compute_toll(0));
    let cost2 = compute_toll(1);
    assert!(!try_pay_toll(&mut wallet, cost2));
    assert_eq!(wallet.gold, 3); // unchanged
}

#[test]
fn player_cannot_afford_all_tolls() {
    let wallet = PlayerWallet::default();
    let total = compute_toll(0) + compute_toll(1) + compute_toll(2);
    assert!(wallet.gold < total);
}

#[test]
fn toll_obfuscation_uses_hex() {
    // The seed & mask trick: 0x37 & 0x0F = 7
    let mask: i32 = 0x0F;
    let seed: i32 = 0x37;
    assert_eq!(seed & mask, 7);
}

#[test]
fn debugger_scenario_give_gold() {
    let mut wallet = PlayerWallet::default();
    wallet.gold = 10000; // debugger sets this
    for checkpoint in 0..3 {
        let cost = compute_toll(checkpoint);
        assert!(try_pay_toll(&mut wallet, cost));
    }
    assert!(wallet.gold > 0);
}

#[test]
fn pay_toll_does_not_charge_on_failure() {
    let mut wallet = PlayerWallet { gold: 5 };
    let cost = compute_toll(1); // 70, can't afford
    assert!(!try_pay_toll(&mut wallet, cost));
    assert_eq!(wallet.gold, 5); // unchanged
}

#[test]
fn toll_wraps_past_i32() {
    assert_eq!(compute_toll(8), 700_000_000);
    assert_eq!(compute_toll(9), 7_000_000_000i64 as i32);
}

#[test]
fn toll_booths_are_paid_in_order() {
    let mut state = TollState::new();
    let mut wallet = PlayerWallet::default();
    assert!(state.attempt_toll(&mut wallet));
    assert_eq!(state.checkpoint, 1);
    assert_eq!(wallet.gold, 3);
    assert!(!state.attempt_toll(&mut wallet));
    assert_eq!(state.checkpoint, 1);
    assert!(!state.all_paid());
    wallet.gold = 10000;
    assert!(state.attempt_toll(&mut wallet));
    assert!(state.attempt_toll(&mut wallet));
    assert!(state.all_paid());
    assert_eq!(wallet.gold, 10000 - 770);
    assert!(!state.attempt_toll(&mut wallet));
}

// --- arena ---

#[test]
fn victory_when_allies_alive_enemies_dead() {
    assert_eq!(check_arena_victory(true, false), 1);
}

#[test]
fn loss_when_allies_dead() {
    assert_eq!(check_arena_victory(false, true), -1);
    assert_eq!(check_arena_victory(false, false), -1);
}

#[test]
fn ongoing_when_both_alive() {
    assert_eq!(check_arena_victory(true, true), 0);
}

#[test]
fn nopping_damage_causes_draw() {
    // If the damage is skipped, nobody dies: the fight never counts as a win.
    let allies_alive = true;
    let enemies_alive = true;
    assert_eq!(check_arena_victory(allies_alive, enemies_alive), 0);
}

#[test]
fn fighter_names_are_zero_padded() {
    let n = make_name("Bolt");
    assert_eq!(&n[..4], b"Bolt");
    assert!(n[4..].iter().all(|&b| b == 0));
    let long = make_name("abcdefghijklmnopqrstuvwxyz");
    assert_eq!(&long[..], b"abcdefghijklmnop");
}

// --- loot ---

#[test]
fn key_check_works() {
    let no_key = PlayerLoot { has_golden_key: false, total_drops: 0, last_drop: None };
    assert!(!check_has_key(&no_key));

    let has_key = PlayerLoot { has_golden_key: true, total_drops: 1, last_drop: Some(3) };
    assert!(check_has_key(&has_key));
}

#[test]
fn drops_are_recorded_and_the_key_sticks() {
    let mut loot = PlayerLoot::default();
    record_drop(&mut loot, 0);
    assert_eq!(loot.total_drops, 1);
    assert_eq!(loot.last_drop, Some(0));
    assert!(!check_has_key(&loot));
    record_drop(&mut loot, 3);
    assert!(check_has_key(&loot));
    record_drop(&mut loot, 1);
    assert!(check_has_key(&loot));
    assert_eq!(loot.total_drops, 3);
    assert_eq!(loot.last_drop, Some(1));
}
