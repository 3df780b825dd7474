use siff::app::App;
use siff::config::SifConfig;
use siff::file_utils::{add_entry, new_tree};
use siff::path::{Component, FilePath};
use siff::types::Backend;
use siff::ui::file_tree::{get_status_color, get_token_count_color, Color, Constraint, Span};
use siff::ui::{handle_input, render_app, update_ui_state, KeyCode, KeyEvent, UIState};

fn rooted(names: &[&str]) -> FilePath {
    let mut components = vec![Component::RootDir];
    for name in names {
        components.push(Component::Normal(name.to_string()));
    }
    FilePath { components }
}

fn app(backend: Backend) -> App {
    let root = rooted(&["home", "w"]);
    let mut tree = new_tree(root.clone());
    add_entry(&mut tree, &root, "src", true);
    add_entry(&mut tree, &root.child("src"), "ui", true);
    add_entry(&mut tree, &root.child("src").child("ui"), "mod.rs", false);
    add_entry(&mut tree, &root, "README.md", false);
    let mut app = App::new(root, tree, SifConfig::default(), backend, None, true, 0);
    app.expand_root();
    app
}

fn press(app: &mut App, code: KeyCode) {
    app.handle_key_event(KeyEvent { code, control: false }, 1_000_000_000);
}

fn span(text: &str, color: Color) -> Span {
    Span { text: text.to_string(), color: Some(color) }
}

#[test]
fn rows_of_a_fresh_tree() {
    let mut a = app(Backend::Yek);
    a.sync_app_state();
    let mut ui = UIState::default();
    let screen = render_app(&a.state, &mut ui);
    assert_eq!(ui.file_tree_list_state, Some(0));
    assert_eq!(
        screen.section.rows,
        vec![vec![span("[+] src", Color::White)], vec![span("○ README.md", Color::White)]]
    );
    assert!(screen.configuration.is_none());
    assert_eq!(screen.layout, vec![Constraint::Min(0)]);
}

#[test]
fn rows_of_a_selection() {
    let mut a = app(Backend::Yek);
    press(&mut a, KeyCode::Char('E'));
    press(&mut a, KeyCode::Down);
    press(&mut a, KeyCode::Down);
    press(&mut a, KeyCode::Char(' '));
    a.process_token_results(
        &vec![(rooted(&["home", "w", "src", "ui", "mod.rs"]), 1500)],
        1_000_000_000,
    );
    a.sync_app_state();
    let mut ui = UIState::default();
    let screen = render_app(&a.state, &mut ui);
    assert_eq!(
        screen.section.rows,
        vec![
            vec![span("[-] src", Color::Cyan), span(" (1.5K)", Color::Yellow)],
            vec![span("  [-] ui", Color::Yellow), span(" (1.5K)", Color::Yellow)],
            vec![span("    ● mod.rs", Color::White), span(" (1.5K)", Color::LightBlue)],
            vec![span("○ README.md", Color::White)],
        ]
    );
    press(&mut a, KeyCode::Down);
    a.sync_app_state();
    let moved = render_app(&a.state, &mut ui);
    assert_eq!(
        moved.section.rows[2],
        vec![span("    ● mod.rs", Color::Green), span(" (1.5K)", Color::Yellow)]
    );
}

#[test]
fn frame_of_the_file_tree() {
    let mut a = app(Backend::Repomix);
    a.sync_app_state();
    let mut ui = UIState::default();
    let quiet = render_app(&a.state, &mut ui);
    assert_eq!(quiet.section.title, span("File Tree (repomix)", Color::Green));
    assert_eq!(quiet.section.info, span("w  •  Selected: 0 items", Color::Cyan));
    assert_eq!(quiet.section.tokens, span("Tokens: 0", Color::Yellow));
    assert_eq!(quiet.section.status, None);
    assert_eq!(quiet.section.hints_index, 2);
    assert_eq!(
        quiet.section.layout,
        vec![Constraint::Length(1), Constraint::Min(0), Constraint::Length(2)]
    );
    assert_eq!(quiet.layout, vec![Constraint::Length(3), Constraint::Min(0)]);
    a.set_status_message("Warning: slow".to_string(), 0);
    a.sync_app_state();
    let busy = render_app(&a.state, &mut ui);
    assert_eq!(busy.section.status, Some(span("\nWarning: slow", Color::Yellow)));
    assert_eq!(busy.section.hints_index, 3);
    assert_eq!(busy.section.layout.len(), 4);
}

#[test]
fn options_of_repomix_are_shown() {
    let mut a = app(Backend::Repomix);
    press(&mut a, KeyCode::Char('t'));
    let mut ui = UIState::default();
    let line = render_app(&a.state, &mut ui).configuration.unwrap();
    assert_eq!(line.len(), 9);
    assert_eq!(line[0], Span { text: "Options: ".to_string(), color: None });
    assert_eq!(line[1], span("●", Color::Green));
    assert_eq!(line[3], span("○", Color::Gray));
    assert_eq!(line[5], span("○", Color::Gray));
    assert_eq!(line[7], span("XML", Color::Green));
}

#[test]
fn token_colors() {
    assert_eq!(get_token_count_color(0), Color::Green);
    assert_eq!(get_token_count_color(999), Color::Green);
    assert_eq!(get_token_count_color(1000), Color::Yellow);
    assert_eq!(get_token_count_color(9999), Color::Yellow);
    assert_eq!(get_token_count_color(10000), Color::Red);
}

#[test]
fn status_colors() {
    assert_eq!(get_status_color("Success"), Color::Green);
    assert_eq!(get_status_color("Copied to clipboard"), Color::Green);
    assert_eq!(get_status_color("Error: Success"), Color::Green);
    assert_eq!(get_status_color("Failed"), Color::Red);
    assert_eq!(get_status_color("Error: x"), Color::Red);
    assert_eq!(get_status_color("Warning: x"), Color::Yellow);
    assert_eq!(get_status_color("Running Yek"), Color::Cyan);
    assert_eq!(get_status_color("Processing..."), Color::Cyan);
    assert_eq!(get_status_color("3 files processed and copied to clipboard"), Color::White);
}

#[test]
fn input_is_routed() {
    let mut a = app(Backend::Yek);
    let mut ui = UIState::default();
    let key = |code| KeyEvent { code, control: false };
    assert!(!handle_input(&mut a.state, &mut ui, key(KeyCode::Char('r'))));
    assert!(!handle_input(&mut a.state, &mut ui, key(KeyCode::Char('q'))));
    assert!(handle_input(&mut a.state, &mut ui, key(KeyCode::Down)));
    assert_eq!(a.state.selected_index, 1);
    update_ui_state(&a.state, &mut ui);
    assert_eq!(ui.file_tree_list_state, Some(1));
    a.state.selected_index = 10;
    update_ui_state(&a.state, &mut ui);
    assert_eq!(ui.file_tree_list_state, Some(1));
    a.state.visible_paths.clear();
    update_ui_state(&a.state, &mut ui);
    assert_eq!(ui.file_tree_list_state, None);
    assert!(handle_input(&mut a.state, &mut ui, key(KeyCode::Up)));
    assert!(handle_input(&mut a.state, &mut ui, key(KeyCode::Char(' '))));
}

#[test]
fn foreign_root_shows_as_dot() {
    let root = rooted(&["home"]).with_component(Component::Foreign(vec![0xff], "\u{fffd}".to_string()));
    let mut a = App::new(root.clone(), new_tree(root), SifConfig::default(), Backend::Yek, None, true, 0);
    a.sync_app_state();
    let mut ui = UIState::default();
    assert_eq!(render_app(&a.state, &mut ui).section.info, span(".  •  Selected: 0 items", Color::Cyan));
}
