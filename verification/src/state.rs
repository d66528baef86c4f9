//! Which pane has the focus, whether the program is to end, and what a key
//! press does to both.
//!
//! The editor and the terminal are not in here. A key press comes in as the
//! plain values the rules read, and the answer says whether the editor is to
//! get the key.

use crate::error::ParseError;
use crate::node::{parse_program, parsed_program, Node};
use crate::text::tokens_of;
use vstd::prelude::*;

verus! {

/// How far the preview is scrolled. Nothing is kept yet.
#[derive(Debug, Clone, Copy, PartialEq, Eq, Structural)]
pub struct ScrollState;

/// The pane that has the focus: the editor on the left, the preview on the
/// right.
#[derive(Debug, Clone, Copy, PartialEq, Eq, Structural)]
pub enum AppState {
    LeftSelected,
    RightSelected,
}

/// What the program keeps between two key presses, the editor's own state
/// apart.
#[derive(Debug, Clone, Copy, PartialEq, Eq, Structural)]
pub struct State {
    pub should_quit: bool,
    pub app_state: AppState,
}

/// The key of a key press, as far as the rules tell keys apart.
#[derive(Debug, Clone, Copy, PartialEq, Eq, Structural)]
pub enum KeyCode {
    Char(char),
    Tab,
    Other,
}

/// A key press: the key, and whether it came without any modifier.
#[derive(Debug, Clone, Copy, PartialEq, Eq, Structural)]
pub struct KeyPress {
    pub unmodified: bool,
    pub code: KeyCode,
}

/// The rules that key presses go by.
pub struct InputHandler;

/// The pane that does not have the focus.
pub open spec fn other_pane(pane: AppState) -> AppState {
    match pane {
        AppState::LeftSelected => AppState::RightSelected,
        AppState::RightSelected => AppState::LeftSelected,
    }
}

/// A plain `q` asks to quit.
pub open spec fn is_quit(key: KeyPress) -> bool {
    key.unmodified && key.code == KeyCode::Char('q')
}

/// A plain tab moves the focus to the other pane.
pub open spec fn is_switch(key: KeyPress) -> bool {
    key.unmodified && key.code == KeyCode::Tab
}

/// The state after a key that the program itself answers: `q` sets
/// `should_quit`, tab moves the focus, any other key changes nothing.
pub open spec fn after_command(state: State, key: KeyPress) -> State {
    if is_quit(key) {
        State { should_quit: true, app_state: state.app_state }
    } else if is_switch(key) {
        State { should_quit: state.should_quit, app_state: other_pane(state.app_state) }
    } else {
        state
    }
}

/// Whether the editor is to get the key: the focus is on the editor, and
/// the key is no command or the editor is not in normal mode.
pub open spec fn goes_to_editor(state: State, editor_normal: bool, key: KeyPress) -> bool {
    state.app_state == AppState::LeftSelected && !(editor_normal && (is_quit(key) || is_switch(
        key,
    )))
}

/// The state after a key press. A key that goes to the editor leaves it as
/// it was.
pub open spec fn after_key(state: State, editor_normal: bool, key: KeyPress) -> State {
    if goes_to_editor(state, editor_normal, key) {
        state
    } else {
        after_command(state, key)
    }
}

impl State {
    /// The state at the start: nothing asks to quit, the editor has the
    /// focus.
    pub fn new() -> (state: State)
        ensures
            state == (State { should_quit: false, app_state: AppState::LeftSelected }),
    {
        State { should_quit: false, app_state: AppState::LeftSelected }
    }

    /// The tree of the program that `text` holds, or why it holds none.
    pub fn get_output(text: &str) -> (r: Result<Node, ParseError>)
        ensures
            parsed_program(r, parse_program(tokens_of(text@))),
    {
        Node::new(text)
    }
}

impl InputHandler {
    /// Answers a key press. With the focus on the editor in normal mode, `q`
    /// and tab are commands; any other key there, and every key while the
    /// editor is in another mode, goes to the editor. With the focus on the
    /// preview no key goes to the editor. Returns whether the editor is to
    /// get the key.
    pub fn handle_key_event(state: &mut State, editor_normal: bool, key: KeyPress) -> (forward:
        bool)
        ensures
            forward == goes_to_editor(*old(state), editor_normal, key),
            *final(state) == after_key(*old(state), editor_normal, key),
    {
        match state.app_state {
            AppState::LeftSelected => {
                if editor_normal && Self::handle_normal_state(key, state) {
                    return false;
                }
                true
            },
            AppState::RightSelected => {
                Self::handle_default_inputs(key, state);
                false
            },
        }
    }

    /// Carries out `q` and tab; any other key is left alone.
    pub fn handle_default_inputs(key: KeyPress, state: &mut State)
        ensures
            *final(state) == after_command(*old(state), key),
    {
        let _ = Self::handle_normal_state(key, state);
    }

    /// Carries out `q` and tab, and tells whether the key was one of them.
    pub fn handle_normal_state(key: KeyPress, state: &mut State) -> (handled: bool)
        ensures
            handled == (is_quit(key) || is_switch(key)),
            *final(state) == after_command(*old(state), key),
    {
        if !key.unmodified {
            return false;
        }
        match key.code {
            KeyCode::Char(c) => {
                if c == 'q' {
                    state.should_quit = true;
                    true
                } else {
                    false
                }
            },
            KeyCode::Tab => {
                state.app_state = match state.app_state {
                    AppState::LeftSelected => AppState::RightSelected,
                    AppState::RightSelected => AppState::LeftSelected,
                };
                true
            },
            KeyCode::Other => false,
        }
    }
}

} // verus!
