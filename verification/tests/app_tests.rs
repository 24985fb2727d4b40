use ledger_tui::app::{AppScreen, AppState, InputEvent, KeyCode, KeyEvent, KeyEventKind};
use ledger_tui::select::W;
use ledger_tui::ledger::Ledger;

fn press(code: KeyCode) -> InputEvent {
    InputEvent::Key(KeyEvent { code, no_modifiers: true, kind: KeyEventKind::Press })
}

fn modified_press(code: KeyCode) -> InputEvent {
    InputEvent::Key(KeyEvent { code, no_modifiers: false, kind: KeyEventKind::Press })
}

fn sample_ledger() -> Ledger {
    let mut ledger = Ledger::new();
    ledger.add_entry("Alice", 1000);
    ledger.add_entry("Bob", -100);
    ledger.add_entry("Alice", 50);
    ledger
}

fn record_state() -> AppState {
    let ledger = sample_ledger();
    let screen = AppScreen::new_record_screen(&ledger);
    AppState::new(screen, ledger)
}

fn record_ids(state: &AppState) -> Vec<u128> {
    match state.screen() {
        AppScreen::RecordList(list) => list.list().items().iter().map(|r| r.id()).collect(),
        _ => panic!("expected the record screen"),
    }
}

fn record_cursor(state: &AppState) -> Option<usize> {
    match state.screen() {
        AppScreen::RecordList(list) => list.list().cursor(),
        _ => panic!("expected the record screen"),
    }
}

#[test]
fn plain_q_quits_from_record_screen() {
    let state = record_state();
    let state = state.handle(press(KeyCode::Char('q')));
    assert!(state.quit());
    assert!(matches!(state.screen(), AppScreen::RecordList(_)));
}

#[test]
fn modified_q_does_not_quit() {
    let state = record_state();
    let ids = record_ids(&state);
    let state = state.handle(modified_press(KeyCode::Char('q')));
    assert!(!state.quit());
    assert_eq!(record_ids(&state), ids);
    assert_eq!(record_cursor(&state), None);
}

#[test]
fn release_and_repeat_are_ignored() {
    for kind in [KeyEventKind::Release, KeyEventKind::Repeat] {
        let state = record_state();
        let event = InputEvent::Key(KeyEvent {
            code: KeyCode::Char('q'),
            no_modifiers: true,
            kind,
        });
        let state = state.handle(event);
        assert!(!state.quit());
    }
}

#[test]
fn unrecognized_key_changes_nothing() {
    let state = record_state();
    let ids = record_ids(&state);
    let state = state.handle(press(KeyCode::Char('x')));
    assert!(!state.quit());
    assert!(matches!(state.screen(), AppScreen::RecordList(_)));
    assert_eq!(record_ids(&state), ids);
    assert_eq!(record_cursor(&state), None);
}

#[test]
fn non_key_events_are_ignored() {
    let state = record_state();
    let ids = record_ids(&state);
    let state = state.handle(InputEvent::Other);
    assert!(!state.quit());
    assert_eq!(record_ids(&state), ids);
}

#[test]
fn down_and_up_move_the_cursor_circularly() {
    let state = record_state();
    let state = state.handle(press(KeyCode::Down));
    assert_eq!(record_cursor(&state), Some(0));
    let state = state.handle(press(KeyCode::Down));
    assert_eq!(record_cursor(&state), Some(1));
    let state = state.handle(press(KeyCode::Down));
    assert_eq!(record_cursor(&state), Some(2));
    let state = state.handle(press(KeyCode::Down));
    assert_eq!(record_cursor(&state), Some(0));
    let state = state.handle(press(KeyCode::Up));
    assert_eq!(record_cursor(&state), Some(2));
}

#[test]
fn switching_screens_rebuilds_from_the_ledger() {
    let state = record_state();
    let state = state.handle(press(KeyCode::Char('t')));
    assert!(matches!(state.screen(), AppScreen::TotalList(_)));
    let state = state.handle(press(KeyCode::Char('a')));
    let first_ids = record_ids(&state);
    assert_eq!(record_cursor(&state), None);
    let state = state.handle(press(KeyCode::Char('t')));
    let state = state.handle(press(KeyCode::Char('a')));
    let second_ids = record_ids(&state);
    assert_eq!(first_ids, second_ids);
    assert_eq!(record_cursor(&state), None);
}

#[test]
fn total_screen_shows_aggregated_entries() {
    let ledger = sample_ledger();
    let screen = AppScreen::new_total_screen(&ledger);
    let state = AppState::new(screen, ledger);
    match state.screen() {
        AppScreen::TotalList(list) => {
            let items = list.list().items();
            assert_eq!(items.len(), 2);
            assert_eq!(items[0].0.as_str(), "Alice");
            assert_eq!(items[0].1, 1050);
            assert_eq!(items[1].0.as_str(), "Bob");
            assert_eq!(items[1].1, -100);
            assert_eq!(list.list().cursor(), None);
        },
        _ => panic!("expected the total screen"),
    }
}

#[test]
fn total_screen_keys_switch_and_quit() {
    let ledger = sample_ledger();
    let state = AppState::new(AppScreen::new_total_screen(&ledger), ledger);
    let state = state.handle(press(KeyCode::Down));
    match state.screen() {
        AppScreen::TotalList(list) => assert_eq!(list.list().cursor(), Some(0)),
        _ => panic!("expected the total screen"),
    }
    let state = state.handle(press(KeyCode::Char('a')));
    assert!(matches!(state.screen(), AppScreen::RecordList(_)));
    let state = state.handle(press(KeyCode::Char('q')));
    assert!(state.quit());
}

#[test]
fn mark_quit_sets_the_flag() {
    let mut state = record_state();
    assert!(!state.quit());
    state.mark_quit();
    assert!(state.quit());
}

#[test]
fn key_only_requires_plain_press() {
    let plain = W(KeyEvent {
        code: KeyCode::Char('q'),
        no_modifiers: true,
        kind: KeyEventKind::Press,
    });
    assert!(plain.key_only(KeyCode::Char('q')));
    assert!(!plain.key_only(KeyCode::Char('t')));
    let modified = W(KeyEvent {
        code: KeyCode::Char('q'),
        no_modifiers: false,
        kind: KeyEventKind::Press,
    });
    assert!(!modified.key_only(KeyCode::Char('q')));
    let released = W(KeyEvent {
        code: KeyCode::Char('q'),
        no_modifiers: true,
        kind: KeyEventKind::Release,
    });
    assert!(!released.key_only(KeyCode::Char('q')));
}

#[test]
fn screens_carry_their_titles() {
    let ledger = sample_ledger();
    match AppScreen::new_record_screen(&ledger) {
        AppScreen::RecordList(list) => {
            assert_eq!(list.list().title_str().map(|s| s.as_str()), Some("Entries"));
        },
        _ => panic!("expected the record screen"),
    }
    match AppScreen::new_total_screen(&ledger) {
        AppScreen::TotalList(list) => {
            assert_eq!(list.list().title_str().map(|s| s.as_str()), Some("Totals"));
        },
        _ => panic!("expected the total screen"),
    }
}
