use pokeball::game::Phase;
use pokeball::game::Screen;
use pokeball::game::SceneState;
use pokeball::game::BALL_CAUGHT_X;
use pokeball::game::BALL_START_X;
use pokeball::commands::canon_command;
use pokeball::commands::parse_dex_index;
use pokeball::commands::sanitize_name;

fn fresh() -> SceneState {
    SceneState::new(b"growlithe".to_vec())
}

fn in_game() -> SceneState {
    let mut s = fresh();
    let quit = s.handle_command(&b"ash".to_vec());
    assert!(!quit);
    assert_eq!(s.screen, Screen::Game);
    s
}

#[test]
fn canon_trims_and_lowercases() {
    assert_eq!(canon_command(&b"  CaTcH \r\n".to_vec()), b"catch".to_vec());
    assert_eq!(canon_command(&b"".to_vec()), b"".to_vec());
    assert_eq!(canon_command(&b"   ".to_vec()), b"".to_vec());
}

#[test]
fn sanitize_accepts_ash_1() {
    let r = sanitize_name(&b"Ash_1".to_vec());
    assert_eq!(r, Some(b"ash_1".to_vec()));
}

#[test]
fn sanitize_rejects_inner_space() {
    assert_eq!(sanitize_name(&b"ash ketchum".to_vec()), None);
    assert_eq!(sanitize_name(&b"".to_vec()), None);
    assert_eq!(sanitize_name(&b"bad!name".to_vec()), None);
}

#[test]
fn name_screen_rejection_keeps_screen() {
    let mut s = fresh();
    assert_eq!(s.screen, Screen::Name);
    let quit = s.handle_command(&b"ash ketchum".to_vec());
    assert!(!quit);
    assert_eq!(s.screen, Screen::Name);
    assert_eq!(s.trainer, None);
    // a valid name moves to the game screen
    let quit = s.handle_command(&b"Ash_1".to_vec());
    assert!(!quit);
    assert_eq!(s.screen, Screen::Game);
    assert_eq!(s.trainer, Some(b"ash_1".to_vec()));
}

#[test]
fn catch_travels_for_exactly_39_ticks() {
    let mut s = in_game();
    assert_eq!(s.phase, Phase::Idle);
    assert_eq!(s.ball_x, BALL_START_X);
    let quit = s.handle_command(&b"catch".to_vec());
    assert!(!quit);
    assert_eq!(s.phase, Phase::Throwing);
    for tick in 0..38 {
        let saved = s.advance_tick();
        assert!(saved.is_none());
        assert_eq!(s.phase, Phase::Throwing, "still flying after tick {}", tick + 1);
    }
    assert_eq!(s.ball_x, BALL_START_X + 15 * 38);
    let saved = s.advance_tick();
    assert!(saved.is_none());
    assert_eq!(s.phase, Phase::Opening);
    assert_eq!(s.ball_x, BALL_CAUGHT_X);
}

#[test]
fn capture_recorded_exactly_once_per_cycle() {
    let mut s = in_game();
    s.handle_command(&b"catch".to_vec());
    let mut saves: Vec<Vec<u8>> = Vec::new();
    // run a full cycle and a bit more
    for _ in 0..400 {
        if let Some(name) = s.advance_tick() {
            saves.push(name);
        }
    }
    assert_eq!(saves.len(), 1, "one persistence write per capture");
    assert_eq!(saves[0], b"growlithe".to_vec());
    assert_eq!(s.caught.len(), 1, "one set insertion per capture");
    // a second capture of the same creature records in memory but is not
    // saved again
    assert_eq!(s.phase, Phase::Idle);
    s.handle_command(&b"catch".to_vec());
    for _ in 0..400 {
        assert!(s.advance_tick().is_none());
    }
    assert_eq!(s.caught.len(), 1);
}

#[test]
fn shaking_takes_exactly_60_ticks() {
    let mut s = in_game();
    s.phase = Phase::Shaking;
    s.frame = 0;
    s.ball_x = BALL_CAUGHT_X;
    for tick in 0..59 {
        s.advance_tick();
        assert_eq!(s.phase, Phase::Shaking, "still shaking after tick {}", tick + 1);
    }
    s.advance_tick();
    assert_eq!(s.phase, Phase::StarHold);
}

#[test]
fn star_hold_returns_to_idle() {
    let mut s = in_game();
    s.phase = Phase::StarHold;
    s.frame = 0;
    s.recorded = true;
    for _ in 0..49 {
        s.advance_tick();
        assert_eq!(s.phase, Phase::StarHold);
    }
    s.advance_tick();
    assert_eq!(s.phase, Phase::Idle);
    assert_eq!(s.ball_x, BALL_START_X);
    assert!(!s.recorded);
}

#[test]
fn quit_tokens_request_disconnect() {
    let mut s = in_game();
    assert!(s.handle_command(&b"q".to_vec()));
    assert!(s.handle_command(&b"QUIT".to_vec()));
    assert!(s.handle_command(&b" exit ".to_vec()));
    assert!(s.handle_command(&vec![3u8]));
    assert!(!s.handle_command(&b"quitter".to_vec()));
}

#[test]
fn dex_screens_navigate() {
    let mut s = in_game();
    s.handle_command(&b"pokedex".to_vec());
    assert_eq!(s.screen, Screen::DexGrid);
    s.handle_command(&b"25".to_vec());
    assert_eq!(s.screen, Screen::DexDetail(25));
    s.handle_command(&b"back".to_vec());
    assert_eq!(s.screen, Screen::DexGrid);
    s.handle_command(&b"back".to_vec());
    assert_eq!(s.screen, Screen::Game);
    s.handle_command(&b"dex".to_vec());
    assert_eq!(s.screen, Screen::DexGrid);
    // out-of-range or junk indices are ignored
    s.handle_command(&b"152".to_vec());
    assert_eq!(s.screen, Screen::DexGrid);
    s.handle_command(&b"0".to_vec());
    assert_eq!(s.screen, Screen::DexGrid);
}

#[test]
fn dex_index_bounds() {
    assert_eq!(parse_dex_index(&b"1".to_vec()), Some(1));
    assert_eq!(parse_dex_index(&b"151".to_vec()), Some(151));
    assert_eq!(parse_dex_index(&b"152".to_vec()), None);
    assert_eq!(parse_dex_index(&b"0".to_vec()), None);
    assert_eq!(parse_dex_index(&b"1234".to_vec()), None);
    assert_eq!(parse_dex_index(&b"12a".to_vec()), None);
}

#[test]
fn unknown_commands_only_echo() {
    let mut s = in_game();
    let before_phase = s.phase;
    s.handle_command(&b"  Dance ".to_vec());
    assert_eq!(s.phase, before_phase);
    assert_eq!(s.screen, Screen::Game);
    assert_eq!(s.last_cmd, b"dance".to_vec());
}

#[test]
fn spin_integrates_while_idle_and_throwing() {
    let mut s = in_game();
    let spin0 = s.spin;
    s.advance_tick();
    // idle spin steps back by 5 centiradians, wrapping
    assert_eq!(s.spin, (spin0 + 628 - 5) % 628);
    s.handle_command(&b"catch".to_vec());
    let spin1 = s.spin;
    s.advance_tick();
    assert_eq!(s.spin, (spin1 + 628 - 20) % 628);
    let tilt = s.tilt_phase;
    s.advance_tick();
    assert_eq!(s.tilt_phase, (tilt + 4) % 628);
}
