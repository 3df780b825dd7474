use siff::app::input::{ConfigOption, KeyOutcome};
use siff::app::run::{TurnAction, TurnEvent};
use siff::app::App;
use siff::config::SifConfig;
use siff::file_utils::{add_entry, new_tree};
use siff::path::{Component, FilePath};
use siff::path_map::{PathMap, PathSet};
use siff::repomix_integration::DownloadStatus;
use siff::token_totals::{queue_individual_token_calculations, TokenCounts};
use siff::types::{Backend, BackendResult, OutputFormat};
use siff::ui::{KeyCode, KeyEvent, MouseEvent, MouseEventKind};

const SECOND: u64 = 1_000_000_000;

fn rooted(names: &[&str]) -> FilePath {
    let mut components = vec![Component::RootDir];
    for name in names {
        components.push(Component::Normal(name.to_string()));
    }
    FilePath { components }
}

/// w: docs (guide.md), src (main.rs, lib.rs), README.md
fn app(backend: Backend) -> App {
    let root = rooted(&["w"]);
    let mut tree = new_tree(root.clone());
    add_entry(&mut tree, &root, "docs", true);
    add_entry(&mut tree, &root.child("docs"), "guide.md", false);
    add_entry(&mut tree, &root, "src", true);
    add_entry(&mut tree, &root.child("src"), "main.rs", false);
    add_entry(&mut tree, &root.child("src"), "lib.rs", false);
    add_entry(&mut tree, &root, "README.md", false);
    let mut app = App::new(root, tree, SifConfig::default(), backend, None, true, SECOND);
    app.expand_root();
    app
}

fn press(app: &mut App, code: KeyCode, now: u64) -> KeyOutcome {
    app.handle_key_event(KeyEvent { code, control: false }, now)
}

fn files_of(outcome: KeyOutcome) -> Vec<String> {
    match outcome {
        KeyOutcome::Continue(files) => files.iter().map(|f| f.to_text("/")).collect(),
        other => panic!("{:?}", other),
    }
}

fn shown(app: &App) -> Vec<String> {
    app.state.visible_paths.iter().map(|p| p.to_text("/")).collect()
}

fn result(id: u64, message: &str) -> BackendResult {
    BackendResult {
        success: true,
        message: message.to_string(),
        output_file: None,
        error: None,
        request_id: id,
    }
}

/// A request is under way.
fn answer_to(app: &mut App, id: u64) {
    app.current_request_id = Some(id);
    app.next_request_id = id + 1;
}

fn count(app: &App, names: &[&str]) -> Option<Option<usize>> {
    app.state.individual_token_counts.get(&rooted(names)).copied()
}

#[test]
fn new_app_starts_the_download_it_needs() {
    let root = rooted(&["w"]);
    let fresh = App::new(root.clone(), new_tree(root.clone()), SifConfig::default(), Backend::Repomix, None, false, 0);
    assert_eq!(
        fresh.repomix.as_ref().unwrap().download_status(),
        &DownloadStatus::Downloading("Initializing...".to_string())
    );
    assert_eq!(fresh.state.repomix_options.output_format, OutputFormat::Xml);
    let yek = App::new(root.clone(), new_tree(root), SifConfig::default(), Backend::Yek, None, false, 0);
    assert!(yek.repomix.is_none());
    assert!(yek.state.visible_paths.is_empty());
}

#[test]
fn expanded_root_shows_its_entries() {
    let a = app(Backend::Yek);
    assert_eq!(shown(&a), vec!["/w/docs", "/w/src", "/w/README.md"]);
}

#[test]
fn space_selects_and_asks_for_counts() {
    let mut a = app(Backend::Yek);
    press(&mut a, KeyCode::Down, 2 * SECOND);
    let files = files_of(press(&mut a, KeyCode::Char(' '), 2 * SECOND));
    assert_eq!(files, vec!["/w/src/main.rs", "/w/src/lib.rs"]);
    assert!(a.state.dir_descendants_dirty);
    assert_eq!(count(&a, &["w", "src", "main.rs"]), Some(None));
    assert_eq!(count(&a, &["w", "src"]), Some(Some(0)));
    assert_eq!(count(&a, &["w"]), Some(Some(0)));
    assert_eq!(count(&a, &["w", "docs"]), None);
    assert_eq!(a.pending_token_calculations.len(), 2);
}

#[test]
fn results_sum_up_in_directories() {
    let mut a = app(Backend::Yek);
    press(&mut a, KeyCode::Down, 2 * SECOND);
    press(&mut a, KeyCode::Char(' '), 2 * SECOND);
    let first = vec![(rooted(&["w", "src", "main.rs"]), 10)];
    assert!(a.token_results_fit(&first));
    assert!(a.process_token_results(&first, 2 * SECOND));
    assert_eq!(a.token_count, 10);
    assert_eq!(a.pending_token_calculations.len(), 1);
    assert!(a.process_token_results(&vec![(rooted(&["w", "src", "lib.rs"]), 5)], 2 * SECOND));
    assert_eq!(a.token_count, 15);
    assert_eq!(count(&a, &["w", "src"]), Some(Some(15)));
    assert_eq!(count(&a, &["w"]), Some(Some(15)));
    assert!(a.pending_token_calculations.is_empty());
    assert!(!a.process_token_results(&vec![], 2 * SECOND));
    // nothing selected any more: all counts are forgotten
    assert!(files_of(press(&mut a, KeyCode::Char(' '), 4 * SECOND)).is_empty());
    assert_eq!(a.token_count, 0);
    assert_eq!(a.state.individual_token_counts.len(), 0);
}

#[test]
fn known_counts_are_kept_and_others_dropped() {
    let mut a = app(Backend::Yek);
    press(&mut a, KeyCode::Down, 2 * SECOND);
    press(&mut a, KeyCode::Char(' '), 2 * SECOND);
    a.process_token_results(
        &vec![(rooted(&["w", "src", "main.rs"]), 10), (rooted(&["w", "src", "lib.rs"]), 5)],
        2 * SECOND,
    );
    press(&mut a, KeyCode::Right, 3 * SECOND);
    press(&mut a, KeyCode::Down, 3 * SECOND);
    // main.rs is unselected, its directory stays selected
    assert!(files_of(press(&mut a, KeyCode::Char(' '), 3 * SECOND)).is_empty());
    assert_eq!(a.token_count, 5);
    assert_eq!(count(&a, &["w", "src", "main.rs"]), None);
    assert_eq!(count(&a, &["w", "src", "lib.rs"]), Some(Some(5)));
    assert_eq!(count(&a, &["w", "src"]), Some(Some(5)));
}

#[test]
fn sums_must_stay_in_range() {
    let mut a = app(Backend::Yek);
    press(&mut a, KeyCode::Down, 2 * SECOND);
    press(&mut a, KeyCode::Char(' '), 2 * SECOND);
    let huge = vec![
        (rooted(&["w", "src", "main.rs"]), usize::MAX),
        (rooted(&["w", "src", "lib.rs"]), 1),
    ];
    assert!(!a.token_results_fit(&huge));
    assert!(a.token_results_fit(&vec![(rooted(&["w", "src", "main.rs"]), usize::MAX)]));
    assert!(a.token_results_fit(&vec![(rooted(&["elsewhere"]), usize::MAX), (rooted(&["there"]), 1)]));
}

#[test]
fn updates_are_debounced() {
    let mut a = app(Backend::Yek);
    let first = files_of(press(&mut a, KeyCode::Char(' '), 2 * SECOND));
    assert_eq!(first, vec!["/w/docs/guide.md"]);
    press(&mut a, KeyCode::Down, 2 * SECOND);
    // selected, but not counted yet
    assert!(files_of(press(&mut a, KeyCode::Char(' '), 2 * SECOND + 299_999_999)).is_empty());
    assert_eq!(count(&a, &["w", "src", "main.rs"]), None);
    let later = a.update_token_count_debounced(2 * SECOND + 300_000_000);
    assert_eq!(later, vec![rooted(&["w", "src", "main.rs"]), rooted(&["w", "src", "lib.rs"])]);
}

#[test]
fn select_all_counts_in_bulk() {
    let mut a = app(Backend::Yek);
    press(&mut a, KeyCode::Char('E'), 2 * SECOND);
    assert_eq!(a.status_message, "Expanded all directories");
    let files = files_of(press(&mut a, KeyCode::Char('A'), 2 * SECOND));
    assert_eq!(files, vec!["/w/docs/guide.md", "/w/src/main.rs", "/w/src/lib.rs", "/w/README.md"]);
    assert!(a.is_bulk_token_calculation);
    assert_eq!(a.status_message, "Selected all items - calculating tokens...");
    a.process_token_results(&vec![(rooted(&["w", "README.md"]), 1)], 2 * SECOND);
    // three directories and one file have a count, three files are under way
    assert_eq!(a.status_message, "Calculating tokens... 4/7");
    a.process_token_results(
        &vec![
            (rooted(&["w", "docs", "guide.md"]), 2),
            (rooted(&["w", "src", "main.rs"]), 3),
            (rooted(&["w", "src", "lib.rs"]), 4),
        ],
        2 * SECOND,
    );
    assert_eq!(a.status_message, "✓ Calculated tokens for 4 files");
    assert!(!a.is_bulk_token_calculation);
    assert_eq!(a.token_count, 10);
    press(&mut a, KeyCode::Char('U'), 3 * SECOND);
    assert_eq!(a.status_message, "Unselected all items");
    assert_eq!(a.token_count, 0);
    assert_eq!(a.state.individual_token_counts.len(), 0);
}

#[test]
fn only_a_thousand_files_are_counted() {
    let root = rooted(&["w"]);
    let mut tree = new_tree(root.clone());
    let mut i = 0;
    while i < 1003 {
        add_entry(&mut tree, &root, &format!("f{}", i), false);
        i += 1;
    }
    let mut a = App::new(root, tree, SifConfig::default(), Backend::Yek, None, true, 0);
    a.expand_root();
    let files = files_of(press(&mut a, KeyCode::Char('A'), SECOND));
    assert_eq!(files.len(), 1000);
    assert_eq!(files[999], "/w/f999");
    assert_eq!(a.status_message, "Processing 1003 files (showing first 1000)...");
    assert_eq!(count(&a, &["w", "f1000"]), None);
}

#[test]
fn files_are_counted_directory_by_directory() {
    let root = rooted(&["w"]);
    let mut tree = new_tree(root.clone());
    add_entry(&mut tree, &root, "a", true);
    add_entry(&mut tree, &root, "b", true);
    add_entry(&mut tree, &root.child("a"), "1", false);
    add_entry(&mut tree, &root.child("b"), "2", false);
    add_entry(&mut tree, &root.child("a"), "3", false);
    let mut a = App::new(root, tree, SifConfig::default(), Backend::Yek, None, true, 0);
    a.expand_root();
    press(&mut a, KeyCode::Char('E'), SECOND);
    assert_eq!(files_of(press(&mut a, KeyCode::Char('A'), SECOND)), vec!["/w/a/1", "/w/a/3", "/w/b/2"]);
}

#[test]
fn collapse_all_keeps_the_root_open() {
    let mut a = app(Backend::Yek);
    press(&mut a, KeyCode::Char('E'), SECOND);
    assert_eq!(shown(&a).len(), 6);
    press(&mut a, KeyCode::Up, SECOND);
    assert_eq!(a.state.selected_index, 5);
    press(&mut a, KeyCode::Char('C'), SECOND);
    assert_eq!(shown(&a), vec!["/w/docs", "/w/src", "/w/README.md"]);
    assert_eq!(a.status_message, "Collapsed all directories");
    // the mark is not moved by this key
    assert_eq!(a.state.selected_index, 5);
    press(&mut a, KeyCode::Down, SECOND);
    assert_eq!(a.state.selected_index, 0);
}

#[test]
fn moving_wraps_around() {
    let mut a = app(Backend::Yek);
    press(&mut a, KeyCode::Char('k'), SECOND);
    assert_eq!(a.state.selected_index, 2);
    press(&mut a, KeyCode::Char('j'), SECOND);
    assert_eq!(a.state.selected_index, 0);
    assert!(a.suppress_status_messages);
}

#[test]
fn moving_clears_old_counting_messages() {
    let mut a = app(Backend::Yek);
    a.set_status_message("Calculating tokens... 1/2".to_string(), SECOND);
    press(&mut a, KeyCode::Down, SECOND);
    assert_eq!(a.status_message, "");
    a.set_status_message("other".to_string(), SECOND);
    press(&mut a, KeyCode::Down, SECOND);
    assert_eq!(a.status_message, "other");
}

#[test]
fn arrows_expand_and_collapse() {
    let mut a = app(Backend::Yek);
    press(&mut a, KeyCode::Right, SECOND);
    assert_eq!(shown(&a)[1], "/w/docs/guide.md");
    press(&mut a, KeyCode::Right, SECOND);
    assert_eq!(shown(&a).len(), 4);
    press(&mut a, KeyCode::Left, SECOND);
    assert_eq!(shown(&a).len(), 3);
    press(&mut a, KeyCode::Char('l'), SECOND);
    press(&mut a, KeyCode::Char('h'), SECOND);
    assert_eq!(shown(&a).len(), 3);
}

#[test]
fn quit_keys() {
    let mut a = app(Backend::Repomix);
    assert!(matches!(press(&mut a, KeyCode::Char('q'), SECOND), KeyOutcome::Quit));
    assert!(matches!(press(&mut a, KeyCode::Esc, SECOND), KeyOutcome::Quit));
    let control_c = KeyEvent { code: KeyCode::Char('c'), control: true };
    assert!(matches!(a.handle_key_event(control_c, SECOND), KeyOutcome::Quit));
    assert!(files_of(press(&mut a, KeyCode::Other, SECOND)).is_empty());
    assert!(files_of(press(&mut a, KeyCode::Char('z'), SECOND)).is_empty());
}

#[test]
fn option_keys_change_and_save() {
    let mut a = app(Backend::Repomix);
    assert!(matches!(press(&mut a, KeyCode::Char('c'), SECOND), KeyOutcome::Save(ConfigOption::Compress)));
    assert!(a.state.repomix_options.compress);
    assert!(a.config.compress);
    a.option_saved(ConfigOption::Compress, None, SECOND);
    assert_eq!(a.status_message, "Compress: enabled");
    press(&mut a, KeyCode::Char('c'), SECOND);
    a.option_saved(ConfigOption::Compress, None, SECOND);
    assert_eq!(a.status_message, "Compress: disabled");
    press(&mut a, KeyCode::Char('m'), SECOND);
    a.option_saved(ConfigOption::RemoveComments, None, SECOND);
    assert_eq!(a.status_message, "Remove comments: enabled");
    press(&mut a, KeyCode::Char('f'), SECOND);
    a.option_saved(ConfigOption::OutputFormat, None, SECOND);
    assert_eq!(a.status_message, "Output format: Plain Text");
    assert_eq!(a.config.output_format, OutputFormat::PlainText);
    press(&mut a, KeyCode::Char('t'), SECOND);
    a.option_saved(ConfigOption::FileTree, Some("disk full"), SECOND);
    assert_eq!(a.status_message, "Error: config save error disk full");
    assert!(a.config.include_file_tree);
}

#[test]
fn yek_has_no_option_keys() {
    let mut a = app(Backend::Yek);
    assert!(files_of(press(&mut a, KeyCode::Char('c'), SECOND)).is_empty());
    assert!(!a.state.repomix_options.compress);
}

#[test]
fn run_needs_selected_files() {
    let mut a = app(Backend::Yek);
    match press(&mut a, KeyCode::Char('r'), SECOND) {
        KeyOutcome::Run(run) => {
            assert!(run.request.is_none());
            assert!(!run.cancel_previous);
        }
        other => panic!("{:?}", other),
    }
    assert_eq!(a.status_message, "No files selected for processing");
}

#[test]
fn run_takes_the_selected_files() {
    let mut a = app(Backend::Yek);
    press(&mut a, KeyCode::Char(' '), 2 * SECOND);
    let run = a.run_backend(2 * SECOND);
    let request = run.request.unwrap();
    assert_eq!(request.request_id, 0);
    assert!(a.can_start_run());
    assert_eq!(request.backend, Backend::Yek);
    assert_eq!(request.selected_files, vec![rooted(&["w", "docs", "guide.md"])]);
    assert_eq!(request.root_path, rooted(&["w"]));
    assert_eq!(request.file_tree.len(), 7);
    assert_eq!(a.status_message, "Running Yek on 1 files...");
    assert!(a.is_processing);
    // a second run cancels the first
    let again = a.run_backend(2 * SECOND);
    assert!(again.cancel_previous);
    assert_eq!(again.request.unwrap().request_id, 1);
    // the answer of the first no longer counts
    assert!(!a.process_backend_results(&vec![result(0, "old")], 2 * SECOND));
    assert!(a.is_processing);
    assert!(a.process_backend_results(&vec![result(0, "old"), result(1, "new"), result(1, "more")], 2 * SECOND));
    assert_eq!(a.status_message, "new");
    assert!(!a.is_processing);
    assert_eq!(a.current_request_id, None);
    assert!(!a.process_backend_results(&vec![result(1, "late")], 2 * SECOND));
}

#[test]
fn failed_hand_over_is_reported() {
    let mut a = app(Backend::Yek);
    press(&mut a, KeyCode::Char(' '), 2 * SECOND);
    a.run_backend(2 * SECOND);
    a.run_not_started(2 * SECOND);
    assert!(!a.is_processing);
    assert_eq!(a.status_message, "Failed to start backend execution");
}

#[test]
fn results_are_shown() {
    let mut a = app(Backend::Yek);
    answer_to(&mut a, 3);
    let long = "x".repeat(101);
    assert!(a.backend_results_fit(&vec![result(3, &long)]));
    a.process_backend_results(&vec![result(3, &long)], SECOND);
    assert_eq!(a.status_message, format!("{}...", "x".repeat(100)));
    answer_to(&mut a, 3);
    let exact = "y".repeat(100);
    a.process_backend_results(&vec![result(3, &exact)], SECOND);
    assert_eq!(a.status_message, exact);
    answer_to(&mut a, 3);
    let mut with_file = result(3, "done");
    with_file.output_file = Some("out.md".to_string());
    a.process_backend_results(&vec![with_file], SECOND);
    assert_eq!(a.status_message, "done | Output: out.md");
    answer_to(&mut a, 3);
    let mut failure = result(3, "");
    failure.success = false;
    a.process_backend_results(&vec![failure.clone()], SECOND);
    assert_eq!(a.status_message, "Error: Backend execution failed");
    answer_to(&mut a, 3);
    failure.error = Some("boom".to_string());
    a.process_backend_results(&vec![failure], SECOND);
    assert_eq!(a.status_message, "boom");
}

#[test]
fn long_messages_are_cut_between_characters() {
    let mut a = app(Backend::Yek);
    answer_to(&mut a, 3);
    let split = format!("{}{}", "x".repeat(99), "éé");
    assert!(!a.backend_results_fit(&vec![result(3, &split)]));
    assert!(a.backend_results_fit(&vec![result(4, &split)]));
    let whole = format!("{}{}", "x".repeat(98), "éé");
    assert!(a.backend_results_fit(&vec![result(3, &whole)]));
    a.process_backend_results(&vec![result(3, &whole)], SECOND);
    assert_eq!(a.status_message, format!("{}é...", "x".repeat(98)));
}

#[test]
fn repomix_waits_for_its_download() {
    let mut a = app(Backend::Repomix);
    press(&mut a, KeyCode::Char(' '), 2 * SECOND);
    assert_eq!(a.run_backend(2 * SECOND).request.unwrap().backend, Backend::Repomix);
    assert_eq!(a.status_message, "Running Repomix on 1 files...");
    a.repomix.as_mut().unwrap().ensure_repomix(false).unwrap_err();
    let run = a.run_backend(2 * SECOND);
    assert!(run.cancel_previous);
    assert!(run.request.is_none());
    assert_eq!(a.status_message, "Starting repomix download...");
    assert!(!a.is_processing);
    a.run_backend(2 * SECOND);
    assert_eq!(a.status_message, "Downloading: Initializing...");
    assert!(a.update_repomix_download(Some("offline".to_string()), 2 * SECOND));
    assert_eq!(a.status_message, "Repomix download failed: offline");
    assert!(!a.update_repomix_download(None, 2 * SECOND));
    a.run_backend(2 * SECOND);
    assert_eq!(a.status_message, "Repomix download failed: offline");
    assert!(a.update_repomix_download(None, 2 * SECOND));
    assert_eq!(a.status_message, "Repomix ready!");
}

#[test]
fn messages_go_away() {
    let mut a = app(Backend::Yek);
    a.set_status_message("hello".to_string(), SECOND);
    a.periodic_update(4 * SECOND);
    assert_eq!(a.status_message, "hello");
    a.periodic_update(4 * SECOND + 1);
    assert_eq!(a.status_message, "");
    a.set_status_message("✓ done".to_string(), SECOND);
    a.periodic_update(3 * SECOND + 1);
    assert_eq!(a.status_message, "");
    a.set_status_message("Calculating tokens... 1/2".to_string(), SECOND);
    a.periodic_update(2 * SECOND + 1);
    assert_eq!(a.status_message, "");
    a.is_bulk_token_calculation = true;
    a.set_status_message("Calculating tokens... 1/2".to_string(), SECOND);
    a.periodic_update(6 * SECOND);
    assert_eq!(a.status_message, "Calculating tokens... 1/2");
    a.periodic_update(6 * SECOND + 1);
    assert_eq!(a.status_message, "");
    answer_to(&mut a, 0);
    a.is_processing = true;
    a.set_status_message("Running".to_string(), SECOND);
    a.periodic_update(60 * SECOND);
    assert_eq!(a.status_message, "Running");
}

#[test]
fn suppression_ends_after_two_seconds() {
    let mut a = app(Backend::Yek);
    press(&mut a, KeyCode::Down, SECOND);
    a.periodic_update(3 * SECOND);
    assert!(a.suppress_status_messages);
    a.periodic_update(3 * SECOND + 1);
    assert!(!a.suppress_status_messages);
}

#[test]
fn clicks_select_and_expand() {
    let mut a = app(Backend::Yek);
    let click = |column, row| MouseEvent { kind: MouseEventKind::LeftDown, column, row };
    // the icon of docs
    a.handle_mouse_event(click(4, 2), 2 * SECOND);
    assert_eq!(shown(&a)[1], "/w/docs/guide.md");
    // the name of docs
    let files = a.handle_mouse_event(click(5, 2), 3 * SECOND);
    assert_eq!(files, vec![rooted(&["w", "docs", "guide.md"])]);
    assert!(a.state.dir_descendants_dirty);
    // a file
    a.handle_mouse_event(click(0, 3), 4 * SECOND);
    assert_eq!(a.state.selected_index, 1);
    assert!(!a.has_selected_descendants(&rooted(&["w", "docs"])));
    // outside of the list
    assert!(a.handle_mouse_event(click(0, 1), 5 * SECOND).is_empty());
    assert!(a.handle_mouse_event(click(0, 6), 5 * SECOND).is_empty());
    assert_eq!(a.state.selected_index, 1);
    assert_eq!(a.calculate_clicked_file_index(2), Some(0));
    assert_eq!(app(Backend::Repomix).calculate_clicked_file_index(5), Some(0));
    assert_eq!(app(Backend::Repomix).calculate_clicked_file_index(4), None);
    assert_eq!(app(Backend::Repomix).calculate_clicked_file_index(8), None);
}

#[test]
fn wheel_moves_the_mark() {
    let mut a = app(Backend::Yek);
    let turn = |kind| MouseEvent { kind, column: 0, row: 0 };
    a.handle_mouse_event(turn(MouseEventKind::ScrollUp), SECOND);
    assert_eq!(a.state.selected_index, 2);
    a.handle_mouse_event(turn(MouseEventKind::ScrollDown), SECOND);
    assert_eq!(a.state.selected_index, 0);
    a.handle_mouse_event(turn(MouseEventKind::Other), SECOND);
    assert_eq!(a.state.selected_index, 0);
}

#[test]
fn screen_state_is_synced() {
    let mut a = app(Backend::Yek);
    press(&mut a, KeyCode::Char(' '), 2 * SECOND);
    a.set_status_message("hi".to_string(), 2 * SECOND);
    a.sync_app_state();
    assert_eq!(a.state.status_message, "hi");
    assert!(!a.state.dir_descendants_dirty);
    assert_eq!(a.state.dir_descendants_map.get(&rooted(&["w"])), Some(&true));
    assert_eq!(a.state.dir_descendants_map.get(&rooted(&["w", "src"])), Some(&false));
}

#[test]
fn turns_of_the_main_loop() {
    let mut a = app(Backend::Repomix);
    assert_eq!(a.turn_step(TurnEvent::InputHandled(false), SECOND), TurnAction::Stop);
    assert_eq!(a.turn_step(TurnEvent::InputHandled(true), SECOND), TurnAction::ReceiveTokenResults);
    assert_eq!(a.turn_step(TurnEvent::TokenResults(vec![]), SECOND), TurnAction::ReceiveBackendResults);
    assert_eq!(a.turn_step(TurnEvent::BackendResults(vec![]), 9 * SECOND), TurnAction::NextTurn);
    assert_eq!(a.last_update, 9 * SECOND);
    let some = vec![(rooted(&["w", "README.md"]), 1)];
    assert_eq!(a.turn_step(TurnEvent::TokenResults(some), SECOND), TurnAction::NextTurn);
    answer_to(&mut a, 0);
    assert_eq!(a.turn_step(TurnEvent::BackendResults(vec![result(0, "ok")]), SECOND), TurnAction::NextTurn);
    assert_eq!(a.last_update, 9 * SECOND);
    a.should_quit = true;
    assert_eq!(a.turn_step(TurnEvent::BackendResults(vec![]), SECOND), TurnAction::Stop);
    // a download under way is carried through first
    a.repomix.as_mut().unwrap().ensure_repomix(false).unwrap_err();
    a.repomix.as_mut().unwrap().start_background_download();
    assert_eq!(a.turn_step(TurnEvent::InputHandled(true), SECOND), TurnAction::Download);
    assert_eq!(a.turn_step(TurnEvent::Downloaded(None), SECOND), TurnAction::NextTurn);
    assert_eq!(a.turn_step(TurnEvent::Downloaded(None), SECOND), TurnAction::ReceiveTokenResults);
    assert_eq!(app(Backend::Yek).turn_step(TurnEvent::InputHandled(true), 0), TurnAction::ReceiveTokenResults);
}

#[test]
fn moving_keeps_the_selection() {
    let mut a = app(Backend::Yek);
    press(&mut a, KeyCode::Char(' '), 2 * SECOND);
    for code in [
        KeyCode::Up,
        KeyCode::Down,
        KeyCode::Char('j'),
        KeyCode::Char('k'),
        KeyCode::Right,
        KeyCode::Left,
        KeyCode::Char('l'),
        KeyCode::Char('h'),
    ] {
        press(&mut a, code, 9 * SECOND);
        assert!(a.state.file_tree.get(&rooted(&["w", "docs", "guide.md"])).unwrap().is_selected);
        assert!(!a.state.file_tree.get(&rooted(&["w", "README.md"])).unwrap().is_selected);
    }
}

#[test]
fn option_keys_come_back() {
    let mut a = app(Backend::Repomix);
    let before = a.state.repomix_options.clone();
    for key in ['c', 'm', 't', 'c', 'm', 't', 'f', 'f', 'f'] {
        press(&mut a, KeyCode::Char(key), SECOND);
    }
    assert_eq!(a.state.repomix_options, before);
}

#[test]
fn empty_tree_has_nothing_to_move_in() {
    let root = rooted(&["w"]);
    let mut a = App::new(root.clone(), new_tree(root), SifConfig::default(), Backend::Yek, None, true, 0);
    a.expand_root();
    for code in [KeyCode::Up, KeyCode::Down, KeyCode::Char(' '), KeyCode::Right, KeyCode::Left] {
        assert!(files_of(press(&mut a, code, SECOND)).is_empty());
        assert_eq!(a.state.selected_index, 0);
    }
}

#[test]
fn runs_start_only_when_they_can() {
    let mut a = app(Backend::Repomix);
    assert!(!a.can_start_run());
    press(&mut a, KeyCode::Char(' '), 2 * SECOND);
    assert!(a.can_start_run());
    a.repomix.as_mut().unwrap().ensure_repomix(false).unwrap_err();
    assert!(!a.can_start_run());
    let mut full = app(Backend::Yek);
    full.next_request_id = u64::MAX;
    // without files the full counter does no harm
    assert!(matches!(press(&mut full, KeyCode::Char('r'), SECOND), KeyOutcome::Run(_)));
    assert_eq!(full.status_message, "No files selected for processing");
}

#[test]
fn requests_have_numbers_of_their_own() {
    let mut a = app(Backend::Yek);
    press(&mut a, KeyCode::Char(' '), 2 * SECOND);
    let mut numbers = vec![];
    for key in ['r', 'E', 'r', 'C', 'U', 'r', 'A', 'r'] {
        if let KeyOutcome::Run(run) = press(&mut a, KeyCode::Char(key), 3 * SECOND) {
            numbers.extend(run.request.map(|request| request.request_id));
        }
    }
    assert_eq!(numbers, vec![0, 1, 2]);
}

#[test]
fn repeated_files_are_counted_once() {
    let root = rooted(&["w"]);
    let mut tree = new_tree(root.clone());
    add_entry(&mut tree, &root, "a", false);
    let mut i = 0;
    while i < tree.len() {
        tree.set_selected_at(i, true);
        i += 1;
    }
    let mut counts: TokenCounts = PathMap::new();
    let mut pending = PathSet::new();
    let files = vec![root.child("a"), root.child("a")];
    let requests = queue_individual_token_calculations(&tree, &mut counts, &mut pending, &files);
    assert_eq!(requests, vec![root.child("a")]);
    assert_eq!(pending.len(), 1);
    assert_eq!(counts.get(&root.child("a")), Some(&None));
}

#[test]
fn a_round_of_moves_visits_every_row() {
    let mut a = app(Backend::Yek);
    press(&mut a, KeyCode::Down, SECOND);
    let mut rows = vec![];
    for _ in 0..3 {
        press(&mut a, KeyCode::Down, SECOND);
        rows.push(a.state.selected_index);
    }
    assert_eq!(rows, vec![2, 0, 1]);
}
