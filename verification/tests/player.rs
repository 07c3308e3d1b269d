use radio::player::{
    Action, App, AppEvent, CheckStep, ChildState, Key, KeyCode, KeyKind, Signal, StartStep, Turn, TurnEnd,
    CONTROL,
};
use radio::station::stations;
use radio::wave::WaveFrame;

fn player() -> App<u32> {
    App::new(stations(), Some((100, 40)), Some(50))
}

fn key(code: KeyCode) -> Key {
    Key { code, modifiers: 0, kind: KeyKind::Press }
}

fn press(app: &mut App<u32>, code: KeyCode) -> Action<u32> {
    app.handle_key(key(code))
}

fn letter(app: &mut App<u32>, c: char) -> Action<u32> {
    press(app, KeyCode::Char(c))
}

fn cursor(app: &App<u32>) -> (usize, i32) {
    (app.category_cursor, app.station_cursor)
}

/// Plays a station with the given handle.
fn play(app: &mut App<u32>, idx: usize, handle: u32) {
    match app.start_playback(idx, ChildState::Exited) {
        StartStep::Launch { .. } => app.launched(idx, handle),
        StartStep::AlreadyPlaying => panic!("plays already"),
    }
}

#[test]
fn a_new_player_stands_on_the_first_category() {
    let app = player();
    assert_eq!(cursor(&app), (0, -1));
    assert_eq!(app.expanded, vec![0]);
    assert_eq!(app.cat_counts, vec![1, 10, 1, 1, 2, 1, 2, 1]);
    assert_eq!(app.current_idx, None);
    assert_eq!(app.audio, None);
    assert!(!app.paused);
    assert_eq!(app.term_size, (100, 40));
    let unknown: App<u32> = App::new(stations(), None, None);
    assert_eq!(unknown.term_size, (80, 24));
    assert_eq!(unknown.volume, None);
}

#[test]
fn down_goes_through_the_categories() {
    let mut app = player();
    for k in 1..8 {
        assert_eq!(letter(&mut app, 'j'), Action::Nothing);
        assert_eq!(cursor(&app), (k, -1));
    }
    press(&mut app, KeyCode::Down);
    assert_eq!(cursor(&app), (7, -1));
    assert_eq!(app.expanded, vec![18]);
}

#[test]
fn down_leaves_a_category_behind_its_last_station() {
    let mut app = player();
    letter(&mut app, 'j');
    press(&mut app, KeyCode::Tab);
    for k in 1..10 {
        press(&mut app, KeyCode::Down);
        assert_eq!(cursor(&app), (1, k));
    }
    press(&mut app, KeyCode::Down);
    assert_eq!(cursor(&app), (2, -1));
    assert_eq!(app.expanded, vec![11]);
}

#[test]
fn down_stays_on_the_last_station_of_all() {
    let mut app = player();
    for _ in 0..7 {
        letter(&mut app, 'j');
    }
    press(&mut app, KeyCode::Tab);
    letter(&mut app, 'j');
    assert_eq!(cursor(&app), (7, 0));
}

#[test]
fn up_goes_back() {
    let mut app = player();
    letter(&mut app, 'k');
    assert_eq!(cursor(&app), (0, -1));
    letter(&mut app, 'j');
    press(&mut app, KeyCode::Tab);
    press(&mut app, KeyCode::Tab);
    assert_eq!(cursor(&app), (1, 1));
    press(&mut app, KeyCode::Up);
    assert_eq!(cursor(&app), (1, 0));
    letter(&mut app, 'k');
    assert_eq!(cursor(&app), (1, -1));
    letter(&mut app, 'k');
    assert_eq!(cursor(&app), (0, -1));
    assert_eq!(app.expanded, vec![0]);
}

#[test]
fn up_undoes_down_and_down_undoes_up() {
    let mut app = player();
    letter(&mut app, 'j');
    letter(&mut app, 'k');
    assert_eq!(cursor(&app), (0, -1));
    letter(&mut app, 'j');
    letter(&mut app, 'k');
    letter(&mut app, 'j');
    assert_eq!(cursor(&app), (1, -1));
    for _ in 0..4 {
        press(&mut app, KeyCode::Tab);
    }
    assert_eq!(cursor(&app), (1, 3));
    letter(&mut app, 'j');
    letter(&mut app, 'k');
    letter(&mut app, 'k');
    letter(&mut app, 'j');
    assert_eq!(cursor(&app), (1, 3));
}

#[test]
fn tab_goes_around_a_category() {
    let mut app = player();
    letter(&mut app, 'j');
    let mut seen = Vec::new();
    for _ in 0..11 {
        press(&mut app, KeyCode::Tab);
        seen.push(app.station_cursor);
    }
    assert_eq!(seen, vec![0, 1, 2, 3, 4, 5, 6, 7, 8, 9, -1]);
    assert_eq!(cursor(&app), (1, -1));
}

#[test]
fn back_returns_to_the_category() {
    for code in [KeyCode::Char('b'), KeyCode::BackTab] {
        let mut app = player();
        letter(&mut app, 'j');
        press(&mut app, KeyCode::Tab);
        press(&mut app, KeyCode::Tab);
        press(&mut app, code);
        assert_eq!(cursor(&app), (1, -1));
        press(&mut app, code);
        assert_eq!(cursor(&app), (1, -1));
    }
}

#[test]
fn enter_plays_what_is_under_the_cursor() {
    let mut app = player();
    assert_eq!(press(&mut app, KeyCode::Enter), Action::Play(0));
    letter(&mut app, 'j');
    assert_eq!(press(&mut app, KeyCode::Enter), Action::Play(1));
    press(&mut app, KeyCode::Tab);
    press(&mut app, KeyCode::Tab);
    press(&mut app, KeyCode::Tab);
    assert_eq!(press(&mut app, KeyCode::Enter), Action::Play(3));
    assert_eq!(cursor(&app), (1, 2));
}

#[test]
fn quit_keys_quit() {
    let mut app = player();
    assert_eq!(letter(&mut app, 'q'), Action::Quit);
    let c = KeyCode::Char('c');
    let with = |modifiers| Key { code: c, modifiers, kind: KeyKind::Press };
    assert_eq!(app.handle_key(with(CONTROL)), Action::Quit);
    assert_eq!(app.handle_key(with(0)), Action::Nothing);
    assert_eq!(app.handle_key(with(CONTROL | 1)), Action::Nothing);
    let q = Key { code: KeyCode::Char('q'), modifiers: CONTROL, kind: KeyKind::Repeat };
    assert_eq!(app.handle_key(q), Action::Quit);
}

#[test]
fn letting_go_of_a_key_does_nothing() {
    let mut app = player();
    for code in [KeyCode::Char('q'), KeyCode::Char('j'), KeyCode::Enter, KeyCode::Char('+')] {
        let event = Key { code, modifiers: 0, kind: KeyKind::Release };
        assert_eq!(app.handle_key(event), Action::Nothing);
    }
    assert_eq!(cursor(&app), (0, -1));
    assert_eq!(app.volume, Some(50));
    let held = Key { code: KeyCode::Char('j'), modifiers: 0, kind: KeyKind::Repeat };
    app.handle_key(held);
    assert_eq!(cursor(&app), (1, -1));
}

#[test]
fn other_keys_do_nothing() {
    let mut app = player();
    for code in [KeyCode::Other, KeyCode::Char('x'), KeyCode::Char('Q'), KeyCode::Char('J')] {
        assert_eq!(press(&mut app, code), Action::Nothing);
    }
    assert_eq!(cursor(&app), (0, -1));
}

#[test]
fn volume_keeps_to_its_bounds() {
    let mut app = player();
    assert_eq!(letter(&mut app, '+'), Action::SetVolume(55));
    assert_eq!(letter(&mut app, '='), Action::SetVolume(60));
    assert_eq!(letter(&mut app, '-'), Action::SetVolume(55));
    app.volume = Some(97);
    assert_eq!(letter(&mut app, '+'), Action::SetVolume(100));
    assert_eq!(letter(&mut app, '-'), Action::SetVolume(95));
    app.volume = Some(3);
    assert_eq!(letter(&mut app, '-'), Action::SetVolume(0));
    app.volume = Some(200);
    assert_eq!(letter(&mut app, '-'), Action::SetVolume(100));
    app.volume = None;
    assert_eq!(letter(&mut app, '-'), Action::SetVolume(45));
    assert_eq!(app.adjust_volume(-1000), 0);
    assert_eq!(app.adjust_volume(1000), 100);
}

#[test]
fn starting_hands_back_the_old_stream() {
    let mut app = player();
    let url = stations()[1].url;
    assert_eq!(
        app.start_playback(1, ChildState::Exited),
        StartStep::Launch { old: None, url }
    );
    app.launched(1, 7);
    assert_eq!((app.current_idx, app.audio, app.paused), (Some(1), Some(7), false));
    assert_eq!(
        app.start_playback(2, ChildState::Running),
        StartStep::Launch { old: Some(7), url: stations()[2].url }
    );
    // The launch failed: the station stays noted, and nothing plays.
    assert_eq!((app.current_idx, app.audio), (Some(1), None));
    assert_eq!(app.check_playback(ChildState::Exited), CheckStep::Nothing);
}

#[test]
fn a_station_that_plays_is_not_started_again() {
    let mut app = player();
    play(&mut app, 4, 1);
    assert_eq!(app.start_playback(4, ChildState::Running), StartStep::AlreadyPlaying);
    assert_eq!(app.start_playback(4, ChildState::Unknown), StartStep::AlreadyPlaying);
    assert_eq!(app.audio, Some(1));
    letter(&mut app, 'p');
    assert!(matches!(
        app.start_playback(4, ChildState::Running),
        StartStep::Launch { old: Some(1), .. }
    ));
    app.launched(4, 2);
    assert!(matches!(
        app.start_playback(4, ChildState::Exited),
        StartStep::Launch { old: Some(2), .. }
    ));
}

#[test]
fn pausing_twice_resumes() {
    let mut app = player();
    assert_eq!(letter(&mut app, 'p'), Action::Nothing);
    assert!(!app.paused);
    play(&mut app, 0, 1);
    assert_eq!(letter(&mut app, 'p'), Action::Send(Signal::Stop));
    assert!(app.paused);
    assert_eq!(letter(&mut app, 'p'), Action::Send(Signal::Continue));
    assert!(!app.paused);
}

#[test]
fn stopping_hands_back_the_stream_and_forgets() {
    let mut app = player();
    play(&mut app, 0, 9);
    app.handle_event(AppEvent::Metadata(Some("title".to_string())));
    app.handle_event(AppEvent::Wave(WaveFrame {
        top: "\u{2847}".to_string(),
        bot: "\u{2807}".to_string(),
    }));
    letter(&mut app, 'p');
    assert_eq!(letter(&mut app, 's'), Action::Halt(Some(9)));
    assert_eq!((app.current_idx, app.audio, app.paused), (None, None, false));
    assert_eq!((app.wave_top.as_str(), app.wave_bot.as_str()), ("", ""));
    assert_eq!(app.metadata, None);
    assert_eq!(letter(&mut app, 's'), Action::Halt(None));
    assert_eq!(app.stop_playback(), None);
}

#[test]
fn browsing_keeps_what_plays() {
    let mut app = player();
    play(&mut app, 5, 3);
    for code in [KeyCode::Down, KeyCode::Tab, KeyCode::BackTab, KeyCode::Up, KeyCode::Char('b')] {
        assert_eq!(press(&mut app, code), Action::Nothing);
        assert_eq!((app.current_idx, app.audio), (Some(5), Some(3)));
    }
}

#[test]
fn a_dead_stream_is_started_three_times() {
    let mut app = player();
    play(&mut app, 2, 10);
    let url = stations()[2].url;
    for n in 0..3u32 {
        assert_eq!(
            app.check_playback(ChildState::Exited),
            CheckStep::Relaunch { dead: 10 + n, url }
        );
        assert_eq!(app.audio, None);
        app.relaunched(11 + n);
        assert_eq!(app.reconnect_attempts as u32, n + 1);
        assert_eq!(app.check_playback(ChildState::Running), CheckStep::Nothing);
    }
    assert_eq!(app.check_playback(ChildState::Unknown), CheckStep::GiveUp(13));
    assert_eq!((app.current_idx, app.audio, app.reconnect_attempts), (None, None, 0));
    play(&mut app, 2, 20);
    assert_eq!(app.reconnect_attempts, 0);
}

#[test]
fn a_failed_relaunch_forgets_the_station() {
    let mut app = player();
    play(&mut app, 2, 10);
    assert!(matches!(app.check_playback(ChildState::Unknown), CheckStep::Relaunch { .. }));
    app.relaunch_failed();
    assert_eq!((app.current_idx, app.audio), (None, None));
    assert_eq!(app.check_playback(ChildState::Exited), CheckStep::Nothing);
}

#[test]
fn a_stray_stream_is_let_go() {
    let mut app = player();
    play(&mut app, 2, 10);
    app.relaunch_failed();
    assert_eq!(app.check_playback(ChildState::Running), CheckStep::Nothing);
    assert_eq!(app.check_playback(ChildState::Exited), CheckStep::Forget(10));
    assert_eq!(app.audio, None);
}

#[test]
fn events_change_what_they_are_about() {
    let mut app = player();
    assert_eq!(app.handle_event(AppEvent::Resize(60, 20)), Action::ClearAll);
    assert_eq!(app.term_size, (60, 20));
    assert_eq!(app.handle_event(AppEvent::Metadata(Some("t".to_string()))), Action::Nothing);
    assert_eq!(app.metadata, Some("t".to_string()));
    assert_eq!(app.handle_event(AppEvent::Metadata(None)), Action::Nothing);
    assert_eq!(app.metadata, None);
    for event in [AppEvent::Tick, AppEvent::StreamDied, AppEvent::OtherInput] {
        assert_eq!(app.handle_event(event), Action::Nothing);
    }
    assert_eq!(app.handle_event(AppEvent::Key(key(KeyCode::Char('q')))), Action::Quit);
}

#[test]
fn a_turn_remembers_quitting_and_clearing() {
    let mut turn = Turn::new();
    turn.note(&Action::<u32>::Nothing);
    assert!(!turn.should_quit && !turn.needs_full_clear);
    turn.note(&Action::<u32>::ClearAll);
    turn.note(&Action::<u32>::Play(3));
    assert!(!turn.should_quit && turn.needs_full_clear);
    turn.note(&Action::<u32>::Quit);
    turn.note(&Action::<u32>::Halt(None));
    assert!(turn.should_quit && turn.needs_full_clear);
}

#[test]
fn a_turn_ends_by_quitting_or_with_one_frame() {
    let mut turn = Turn::new();
    assert_eq!(turn.end(), TurnEnd::CheckAndDraw { clear: false });
    turn.note(&Action::<u32>::ClearAll);
    turn.note(&Action::<u32>::SetVolume(3));
    assert_eq!(turn.end(), TurnEnd::CheckAndDraw { clear: true });
    turn.note(&Action::<u32>::Quit);
    turn.note(&Action::<u32>::ClearAll);
    assert_eq!(turn.end(), TurnEnd::Quit);
}
