//! The user interface: what a key does, and what the screen shows.

pub mod file_tree;

use vstd::prelude::*;
use vstd::string::*;

use crate::types::{AppState, Focus, StateView};
use crate::ui::file_tree::Screen;

verus! {

/// A key of the keyboard.
#[derive(Debug, Clone, Copy, PartialEq, Eq, Structural)]
pub enum KeyCode {
    Char(char),
    Up,
    Down,
    Left,
    Right,
    Esc,
    /// A key that has no meaning here
    Other,
}

/// A key that was pressed.
#[derive(Debug, Clone, Copy, PartialEq, Eq, Structural)]
pub struct KeyEvent {
    /// The key
    pub code: KeyCode,
    /// Whether the control key was down
    pub control: bool,
}

/// What the mouse did.
#[derive(Debug, Clone, Copy, PartialEq, Eq, Structural)]
pub enum MouseEventKind {
    /// The left button was pressed
    LeftDown,
    ScrollUp,
    ScrollDown,
    /// Something that has no meaning here
    Other,
}

/// An event of the mouse, with its place on the screen.
#[derive(Debug, Clone, Copy, PartialEq, Eq, Structural)]
pub struct MouseEvent {
    pub kind: MouseEventKind,
    pub column: u16,
    pub row: u16,
}

/// Main UI state that holds all component states.
#[derive(Debug, Clone, Copy, PartialEq, Eq, Structural)]
pub struct UIState {
    /// The row of the file tree that is highlighted
    pub file_tree_list_state: Option<usize>,
}

impl Default for UIState {
    fn default() -> (r: Self)
        ensures
            r == (UIState { file_tree_list_state: None }),
    {
        UIState { file_tree_list_state: None }
    }
}

/// Renders the complete UI.
/// Main entry point for all UI rendering.
pub fn render_app(app_state: &AppState, ui_state: &mut UIState) -> (r: Screen)
    requires
        app_state.wf(),
        file_tree::visible_known(app_state@),
    ensures
        r@ == file_tree::screen(
            app_state@,
            app_state.token_count as nat,
            app_state.status_message@,
        ),
        final(ui_state).file_tree_list_state == file_tree::highlighted(app_state@),
{
    file_tree::render_file_tree_with_options(
        app_state,
        &mut ui_state.file_tree_list_state,
        app_state.token_count,
        app_state.status_message.as_str(),
    )
}

/// What a key does to the state, and whether it has a meaning here.
pub open spec fn input(s: StateView, key: KeyEvent) -> (StateView, bool) {
    if key.code == KeyCode::Char('r') {
        (s, false)
    } else {
        file_tree::file_tree_input(s, key.code)
    }
}

/// Handles keyboard input for the entire app.
/// Routes input to the appropriate component based on current focus.
pub fn handle_input(app_state: &mut AppState, _ui_state: &mut UIState, key: KeyEvent) -> (r: bool)
    requires
        old(app_state).wf(),
    ensures
        final(app_state).wf(),
        (final(app_state)@, r) == input(old(app_state)@, key),
        *final(_ui_state) == *old(_ui_state),
{
    if key.code == KeyCode::Char('r') {
        return false;
    }
    match app_state.focus {
        Focus::FileTree => file_tree::handle_file_tree_input(app_state, key),
    }
}

/// Updates the UI state after app state changes.
/// UI components stay in sync with the app.
pub fn update_ui_state(app_state: &AppState, ui_state: &mut UIState)
    ensures
        final(ui_state).file_tree_list_state == file_tree::highlighted(app_state@),
{
    ui_state.file_tree_list_state = file_tree::highlighted_row(app_state);
}

} // verus!
