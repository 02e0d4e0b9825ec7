use debugger_challenges::frame_window::{push, HISTORY};
use debugger_challenges::controls::{
    dialog_step, diag_hotkeys, escape_action, next_active_input, toggle_pause, want_cursor_grab, CamDiagMode,
    DiagState, DialogInput, DialogState, EscapeAction, OverlayAction, PauseAction,
};
use debugger_challenges::hill_race::{HillRace, HillRacePhase, NUM_CHECKPOINTS};
use debugger_challenges::maze::{open_entrance, MazeCarver, CELLS, START};
use debugger_challenges::meadow::choose_pit_holes;
use debugger_challenges::raw_mouse::{MouseAction, RawMouseFilter, SampleKind};
use debugger_challenges::rng::{rng_next, rng_usize, AppleRng};
use debugger_challenges::scoreboard::Scoreboard;
use debugger_challenges::vault::{
    compute_access_code, verify_access_code, vault_room_cleared, Keypad, KeypadKey, KeypadOutcome, RoomProgress,
    VaultDoor,
};
use debugger_challenges::waterpark::{slides_complete_check, SlidesRidden};

// --- vault rooms ---

#[test]
fn access_code_is_deterministic() {
    let code1 = {
        let mut code: u32 = 7;
        for i in 0u32..6 {
            code = code.wrapping_mul(13).wrapping_add(i * 3);
        }
        format!("{:06}", code % 1_000_000)
    };
    assert!(verify_access_code(&code1));
}

#[test]
fn wrong_access_code_rejected() {
    assert!(!verify_access_code("000000"));
    assert!(!verify_access_code("123456"));
    assert!(!verify_access_code(""));
}

#[test]
fn access_code_is_6_digits() {
    let mut code: u32 = 7;
    for i in 0u32..6 {
        code = code.wrapping_mul(13).wrapping_add(i * 3);
    }
    let code_str = format!("{:06}", code % 1_000_000);
    assert_eq!(code_str.len(), 6);
    assert!(code_str.chars().all(|c| c.is_ascii_digit()));
}

#[test]
fn debugger_scenario_inspect_access_code() {
    let mut code: u32 = 7;
    for i in 0u32..6 {
        code = code.wrapping_mul(13).wrapping_add(i * 3);
    }
    let expected = format!("{:06}", code % 1_000_000);
    assert!(verify_access_code(&expected));
}

#[test]
fn access_code_value() {
    assert_eq!(compute_access_code(), 33_888_220);
    assert!(verify_access_code("888220"));
    assert!(!verify_access_code("8882200"));
    assert!(!verify_access_code("88822"));
}

#[test]
fn vault_lock_behind_box() {
    let vault = VaultDoor::default();
    assert!(vault.lock.locked);
    assert_eq!(vault.lock._pins, [0xDEAD, 0xBEEF, 0xCAFE]);
}

#[test]
fn debugger_scenario_unlock_vault() {
    let mut vault = VaultDoor::default();
    vault.lock.locked = false; // debugger sets this
    assert!(!vault.lock.locked);
    assert!(vault_room_cleared(true, &vault));
    assert!(!vault_room_cleared(false, &vault));
}

#[test]
fn keypad_takes_at_most_six_digits() {
    let mut k = Keypad::new();
    assert_eq!(k.handle_key(&KeypadKey::Character("12a3")), KeypadOutcome::Continue);
    assert_eq!(k.entry_bytes(), b"123");
    assert_eq!(k.handle_key(&KeypadKey::Character("456789")), KeypadOutcome::Continue);
    assert_eq!(k.entry_bytes(), b"123456");
    assert_eq!(k.handle_key(&KeypadKey::Enter), KeypadOutcome::Rejected);
    assert_eq!(k.entry_len(), 0);
    assert_eq!(k.handle_key(&KeypadKey::Character("8882209")), KeypadOutcome::Continue);
    assert_eq!(k.handle_key(&KeypadKey::Backspace), KeypadOutcome::Continue);
    assert_eq!(k.handle_key(&KeypadKey::Character("0")), KeypadOutcome::Continue);
    assert_eq!(k.handle_key(&KeypadKey::Other), KeypadOutcome::Continue);
    assert_eq!(k.handle_key(&KeypadKey::Enter), KeypadOutcome::Accepted);
    assert_eq!(k.entry_bytes(), b"888220");
}

#[test]
fn rooms_advance_and_stop_at_the_last() {
    let mut p = RoomProgress::new();
    p.clear_room(0);
    assert!(p.rooms_cleared[0]);
    assert!(p.advance_room());
    assert!(p.advance_room());
    assert!(p.advance_room());
    assert_eq!(p.current_room, 3);
    assert!(!p.advance_room());
    assert_eq!(p.current_room, 3);
}

// --- waterpark, hill race ---

#[test]
fn waterpark_needs_all_five_slides() {
    let mut ridden = SlidesRidden::default();
    let mut sb = Scoreboard::default();
    for i in 0..4 {
        ridden.mark_ridden(i);
    }
    ridden.mark_ridden(9);
    assert_eq!(ridden.ridden_count(), 4);
    assert!(!slides_complete_check(&ridden, &mut sb));
    assert!(!sb.is_solved(103));
    ridden.mark_ridden(4);
    assert!(slides_complete_check(&ridden, &mut sb));
    assert!(sb.is_solved(103));
}

#[test]
fn hill_race_win_needs_every_checkpoint() {
    let mut race = HillRace::new();
    assert!(race.trigger_start());
    assert!(!race.trigger_start());
    assert_eq!(race.phase, HillRacePhase::Countdown);
    race.countdown_finished();
    for i in 0..NUM_CHECKPOINTS - 1 {
        race.player_reached(i);
    }
    assert_eq!(race.reached_count(), 12);
    assert_eq!(race.racing_step(true, false), HillRacePhase::Racing);
    race.player_reached(NUM_CHECKPOINTS - 1);
    assert_eq!(race.racing_step(false, false), HillRacePhase::Racing);
    assert_eq!(race.racing_step(true, true), HillRacePhase::Won);
    race.result_finished();
    assert_eq!(race.phase, HillRacePhase::Idle);
    assert_eq!(race.reached_count(), 0);
}

#[test]
fn hill_race_lost_to_the_bot() {
    let mut race = HillRace::new();
    race.trigger_start();
    race.countdown_finished();
    race.bot_reached(0);
    assert_eq!(race.racing_step(false, true), HillRacePhase::Lost);
    assert!(race.bot_checkpoints[0]);
}

// --- raw mouse ---

#[test]
fn relative_reports_pass_through() {
    let mut f = RawMouseFilter::new();
    for k in [SampleKind::Relative, SampleKind::Ambiguous, SampleKind::Relative] {
        assert_eq!(f.push(k), MouseAction::Forward);
    }
    assert!(!f.absolute);
}

#[test]
fn one_position_like_report_does_not_latch() {
    let mut f = RawMouseFilter::new();
    assert_eq!(f.push(SampleKind::Absolute), MouseAction::Drop);
    assert!(!f.absolute);
    assert_eq!(f.push(SampleKind::Relative), MouseAction::Forward);
    f.push(SampleKind::Absolute);
    f.push(SampleKind::Absolute);
    assert!(!f.absolute);
}

#[test]
fn three_position_reports_latch_and_then_difference() {
    let mut f = RawMouseFilter::new();
    assert_eq!(f.push(SampleKind::Absolute), MouseAction::Drop);
    assert_eq!(f.push(SampleKind::Absolute), MouseAction::Drop);
    assert_eq!(f.push(SampleKind::Absolute), MouseAction::SetOrigin);
    assert!(f.absolute);
    assert_eq!(f.push(SampleKind::Absolute), MouseAction::Difference);
    assert_eq!(f.push(SampleKind::Ambiguous), MouseAction::Difference);
}

#[test]
fn relative_device_taking_over_unlatches() {
    let mut f = RawMouseFilter::new();
    for _ in 0..3 {
        f.push(SampleKind::Absolute);
    }
    assert!(f.absolute);
    assert_eq!(f.push(SampleKind::Relative), MouseAction::Difference);
    assert_eq!(f.push(SampleKind::Relative), MouseAction::Difference);
    assert_eq!(f.push(SampleKind::Relative), MouseAction::Forward);
    assert!(!f.absolute);
    assert!(!f.has_origin);
}

// --- generators ---

#[test]
fn xorshift_first_step_from_one() {
    let mut s: u64 = 1;
    assert_eq!(rng_next(&mut s), 1082269761);
    assert_eq!(s, 1082269761);
    let mut t: u64 = 1;
    let r = rng_usize(&mut t, 3, 5);
    assert_eq!(r, 3 + (1082269761usize % 3));
    let mut rng = AppleRng::from_seed(42);
    let a = rng.next_u32();
    let mut s2: u64 = 43;
    assert_eq!(a, rng_next(&mut s2) as u32);
}

fn carve_with(picks: &mut dyn FnMut(usize) -> usize) -> (Vec<bool>, Vec<bool>) {
    let mut m = MazeCarver::new();
    while let Some(n) = m.frontier_size() {
        let i = picks(n);
        m.carve(i);
    }
    assert!(m.is_done());
    m.into_walls()
}

fn open_count(walls: &[bool]) -> usize {
    walls.iter().filter(|&&w| !w).count()
}

fn reachable(h: &[bool], v: &[bool]) -> usize {
    let mut seen = vec![false; CELLS];
    let mut stack = vec![START];
    seen[START] = true;
    let mut n = 1;
    while let Some(k) = stack.pop() {
        let (r, c) = (k / 7, k % 7);
        let mut nb = Vec::new();
        if r > 0 && !h[r * 7 + c] { nb.push(k - 7); }
        if r < 6 && !h[(r + 1) * 7 + c] { nb.push(k + 7); }
        if c > 0 && !v[r * 8 + c] { nb.push(k - 1); }
        if c < 6 && !v[r * 8 + c + 1] { nb.push(k + 1); }
        for x in nb {
            if !seen[x] {
                seen[x] = true;
                n += 1;
                stack.push(x);
            }
        }
    }
    n
}

#[test]
fn maze_is_perfect_for_any_picks() {
    let mut counter = 0usize;
    let (h, v) = carve_with(&mut |n| { counter += 7; counter % n });
    assert_eq!(open_count(&h) + open_count(&v), 48);
    assert_eq!(reachable(&h, &v), 49);
    let (h2, v2) = carve_with(&mut |_n| 0);
    assert_eq!(open_count(&h2) + open_count(&v2), 48);
    assert_eq!(reachable(&h2, &v2), 49);
    assert!(h2[0..7].iter().all(|&w| w));
    assert!(h2[49..56].iter().all(|&w| w));
}

#[test]
fn first_pick_north_carves_the_start_cells_north_wall() {
    let mut m = MazeCarver::new();
    assert_eq!(m.frontier_size(), Some(3));
    m.carve(0);
    let (mut h, _v) = {
        while let Some(n) = m.frontier_size() {
            m.carve(n - 1);
        }
        m.into_walls()
    };
    assert!(!h[6 * 7 + 3]);
    assert!(h[7 * 7 + 3]);
    open_entrance(&mut h);
    assert!(!h[7 * 7 + 3]);
}

#[test]
fn pit_holes_are_apart_and_from_the_candidates() {
    let mut cands = Vec::new();
    for gz in 1..37 {
        for gx in 1..37 {
            cands.push((gx, gz));
        }
    }
    for seed in [1u64, 7, 99, 12345] {
        let mut rng = seed;
        let picked = choose_pit_holes(cands.clone(), &mut rng);
        assert!(picked.len() >= 3 && picked.len() <= 5);
        for (i, a) in picked.iter().enumerate() {
            assert!(cands.contains(a));
            for b in &picked[i + 1..] {
                let (dx, dz) = (a.0 - b.0, a.1 - b.1);
                assert!(dx * dx + dz * dz >= 16);
            }
        }
    }
    let mut rng = 5u64;
    assert!(choose_pit_holes(Vec::new(), &mut rng).is_empty());
}

// --- shared controls ---

#[test]
fn pause_toggles_and_escape_closes_dialogs_first() {
    let mut paused = false;
    assert_eq!(toggle_pause(&mut paused, true), PauseAction::ShowOverlay);
    assert!(paused);
    assert_eq!(toggle_pause(&mut paused, false), PauseAction::Nothing);
    assert_eq!(toggle_pause(&mut paused, true), PauseAction::HideOverlay);
    assert!(!paused);
    assert_eq!(escape_action(false, true, &[false, true]), EscapeAction::CloseDialogs);
    assert_eq!(escape_action(false, true, &[false, false]), EscapeAction::ToMenu);
    assert_eq!(escape_action(true, true, &[]), EscapeAction::Nothing);
    assert_eq!(escape_action(false, false, &[true]), EscapeAction::Nothing);
}

#[test]
fn dialogs_are_exclusive() {
    let closed = DialogState::default();
    let c = DialogInput { key_c: true, ..Default::default() };
    let e = DialogInput { key_e: true, ..Default::default() };
    let s1 = dialog_step(closed, c);
    assert_eq!(s1, DialogState { agenda_open: true, settings_open: false });
    let s2 = dialog_step(s1, e);
    assert_eq!(s2, DialogState { agenda_open: false, settings_open: true });
    let s3 = dialog_step(s2, DialogInput { settings_close: true, ..Default::default() });
    assert_eq!(s3, closed);
    let both = dialog_step(closed, DialogInput { key_c: true, key_e: true, ..Default::default() });
    assert_eq!(both, DialogState { agenda_open: false, settings_open: true });
}

#[test]
fn diagnostics_hotkeys_toggle() {
    let mut d = DiagState::default();
    assert_eq!(diag_hotkeys(&mut d, true, false, false, false), OverlayAction::Spawn);
    assert!(d.overlay);
    assert_eq!(diag_hotkeys(&mut d, true, false, false, true), OverlayAction::Despawn);
    assert_eq!(diag_hotkeys(&mut d, false, true, false, false), OverlayAction::Nothing);
    assert_eq!(d.cam_mode, CamDiagMode::Rigid);
    diag_hotkeys(&mut d, false, true, false, false);
    assert_eq!(d.cam_mode, CamDiagMode::Default);
    diag_hotkeys(&mut d, false, true, true, false);
    assert_eq!(d.cam_mode, CamDiagMode::ExtraSmooth);
    assert_eq!(d.cam_mode.label(), "extra-smooth (F5)");
    assert_eq!(CamDiagMode::Rigid.label(), "rigid (F4)");
}

#[test]
fn cursor_and_legend_decisions() {
    assert!(want_cursor_grab(false, false, false, true));
    assert!(!want_cursor_grab(true, false, false, true));
    assert!(!want_cursor_grab(false, true, false, true));
    assert!(!want_cursor_grab(false, false, true, true));
    assert!(!want_cursor_grab(false, false, false, false));
    assert!(next_active_input(false, true, true));
    assert!(!next_active_input(true, false, true));
    assert!(next_active_input(true, false, false));
}

#[test]
fn frame_window_keeps_the_last_120() {
    let mut w: Vec<u32> = Vec::new();
    for i in 0..130u32 {
        push(&mut w, i);
    }
    assert_eq!(w.len(), HISTORY);
    assert_eq!(w[0], 10);
    assert_eq!(*w.last().unwrap(), 129);
    let mut f: Vec<f32> = vec![0.5; 3];
    push(&mut f, 1.5);
    assert_eq!(f, vec![0.5, 0.5, 0.5, 1.5]);
}
