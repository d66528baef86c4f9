use pseudocode::state::{AppState, InputHandler, KeyCode, KeyPress, ScrollState, State};

fn plain(code: KeyCode) -> KeyPress {
    KeyPress { unmodified: true, code }
}

fn modified(code: KeyCode) -> KeyPress {
    KeyPress { unmodified: false, code }
}

#[test]
fn state_starts_on_the_editor() {
    assert_eq!(State::new(), State { should_quit: false, app_state: AppState::LeftSelected });
    assert_eq!(ScrollState, ScrollState);
}

#[test]
fn q_quits_from_the_preview() {
    let mut state = State { should_quit: false, app_state: AppState::RightSelected };
    let forward = InputHandler::handle_key_event(&mut state, true, plain(KeyCode::Char('q')));
    assert!(!forward);
    assert_eq!(state, State { should_quit: true, app_state: AppState::RightSelected });
}

#[test]
fn q_quits_from_the_editor_in_normal_mode_only() {
    let mut state = State::new();
    assert!(InputHandler::handle_key_event(&mut state, false, plain(KeyCode::Char('q'))));
    assert_eq!(state, State::new());
    assert!(!InputHandler::handle_key_event(&mut state, true, plain(KeyCode::Char('q'))));
    assert_eq!(state, State { should_quit: true, app_state: AppState::LeftSelected });
}

#[test]
fn tab_moves_the_focus() {
    let mut state = State::new();
    assert!(!InputHandler::handle_key_event(&mut state, true, plain(KeyCode::Tab)));
    assert_eq!(state.app_state, AppState::RightSelected);
    assert!(!InputHandler::handle_key_event(&mut state, false, plain(KeyCode::Tab)));
    assert_eq!(state.app_state, AppState::LeftSelected);
    assert!(!state.should_quit);
}

#[test]
fn other_keys_go_to_the_editor_when_it_has_the_focus() {
    let mut state = State::new();
    let keys = [
        plain(KeyCode::Char('x')),
        plain(KeyCode::Other),
        modified(KeyCode::Char('q')),
        modified(KeyCode::Tab),
    ];
    for key in keys {
        assert!(InputHandler::handle_key_event(&mut state, true, key));
        assert_eq!(state, State::new());
    }
    let mut state = State { should_quit: false, app_state: AppState::RightSelected };
    let keys = [
        plain(KeyCode::Char('x')),
        plain(KeyCode::Other),
        modified(KeyCode::Char('q')),
        modified(KeyCode::Tab),
    ];
    for key in keys {
        assert!(!InputHandler::handle_key_event(&mut state, true, key));
        assert_eq!(state, State { should_quit: false, app_state: AppState::RightSelected });
    }
}

#[test]
fn commands_by_themselves() {
    let mut state = State::new();
    InputHandler::handle_default_inputs(plain(KeyCode::Tab), &mut state);
    assert_eq!(state.app_state, AppState::RightSelected);
    InputHandler::handle_default_inputs(plain(KeyCode::Char('a')), &mut state);
    assert_eq!(state, State { should_quit: false, app_state: AppState::RightSelected });
    assert!(InputHandler::handle_normal_state(plain(KeyCode::Char('q')), &mut state));
    assert!(state.should_quit);
    assert!(!InputHandler::handle_normal_state(modified(KeyCode::Char('q')), &mut state));
    assert!(!InputHandler::handle_normal_state(plain(KeyCode::Other), &mut state));
}
