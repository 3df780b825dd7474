//! What keys and the mouse do.

use vstd::prelude::*;
use vstd::string::*;

use crate::app;
use crate::app::backend;
use crate::app::backend::{BackendRun, RunView};
use crate::app::tokens;
use crate::app::{App, AppView};
use crate::file_utils;
use crate::path;
use crate::path::{FilePath, PathView};
use crate::text;
use crate::token_totals;
use crate::tree_laws;
use crate::types;
use crate::types::{Backend, FileNode, FileTree, NodeView, RepomixOptions, StateView, TreeView};
use crate::ui;
use crate::ui::file_tree;
use crate::ui::{KeyCode, KeyEvent, MouseEvent, MouseEventKind};

verus! {

/// An option of repomix that a key changes.
#[derive(Debug, Clone, Copy, PartialEq, Eq, Structural)]
pub enum ConfigOption {
    Compress,
    RemoveComments,
    OutputFormat,
    FileTree,
}

/// What is to be done after a key.
#[derive(Debug)]
pub enum KeyOutcome {
    /// The app ends
    Quit,
    /// The app goes on, and the tokens of the files are to be counted
    Continue(Vec<FilePath>),
    /// The app goes on with a run of a backend
    Run(BackendRun),
    /// The app goes on, the configuration is to be saved, and `option_saved` wants to know what
    /// came of it
    Save(ConfigOption),
}

/// The mathematical value of a [`KeyOutcome`].
pub enum OutcomeView {
    Quit,
    Continue(Seq<PathView>),
    Run(RunView),
    Save(ConfigOption),
}

impl View for KeyOutcome {
    type V = OutcomeView;

    open spec fn view(&self) -> OutcomeView {
        match self {
            KeyOutcome::Quit => OutcomeView::Quit,
            KeyOutcome::Continue(files) => OutcomeView::Continue(path::paths(files@)),
            KeyOutcome::Run(run) => OutcomeView::Run(run@),
            KeyOutcome::Save(option) => OutcomeView::Save(*option),
        }
    }
}

/// The option that a key changes, where repomix is the backend.
pub open spec fn option_of(code: KeyCode, backend: Backend) -> Option<ConfigOption> {
    if backend is Yek {
        None
    } else {
        match code {
            KeyCode::Char('c') => Some(ConfigOption::Compress),
            KeyCode::Char('m') => Some(ConfigOption::RemoveComments),
            KeyCode::Char('f') => Some(ConfigOption::OutputFormat),
            KeyCode::Char('t') => Some(ConfigOption::FileTree),
            _ => None,
        }
    }
}

/// The options with one of them changed: the format goes on to the next, the others are switched.
pub open spec fn changed_options(o: RepomixOptions, option: ConfigOption) -> RepomixOptions {
    match option {
        ConfigOption::Compress => RepomixOptions { compress: !o.compress, ..o },
        ConfigOption::RemoveComments => RepomixOptions {
            remove_comments: !o.remove_comments,
            ..o
        },
        ConfigOption::OutputFormat => RepomixOptions { output_format: o.output_format.next(), ..o },
        ConfigOption::FileTree => RepomixOptions { file_tree: !o.file_tree, ..o },
    }
}

/// The app with one option changed, in use and in the configuration that is to be saved.
pub open spec fn option_changed(v: AppView, option: ConfigOption) -> AppView {
    let options = changed_options(v.state.options, option);
    AppView {
        state: StateView { options, ..v.state },
        config: v.config.with_options(options),
        ..v
    }
}

/// What a switch is set to.
pub open spec fn switch_text(on: bool) -> Seq<char> {
    if on {
        "enabled"@
    } else {
        "disabled"@
    }
}

/// The message on an option that was changed.
pub open spec fn option_message(o: RepomixOptions, option: ConfigOption) -> Seq<char> {
    match option {
        ConfigOption::Compress => "Compress: "@ + switch_text(o.compress),
        ConfigOption::RemoveComments => "Remove comments: "@ + switch_text(o.remove_comments),
        ConfigOption::OutputFormat => "Output format: "@ + o.output_format.name(),
        ConfigOption::FileTree => "File tree: "@ + switch_text(o.file_tree),
    }
}

/// The app after an option was saved, or not, with the error.
pub open spec fn option_reported(
    v: AppView,
    option: ConfigOption,
    error: Option<Seq<char>>,
    now: u64,
) -> AppView {
    app::with_status(
        v,
        match error {
            Some(e) => "Error: config save error "@ + e,
            None => option_message(v.state.options, option),
        },
        now,
    )
}

/// The app with another tree, and with its list of visible paths built anew.
pub open spec fn with_tree(v: AppView, tree: TreeView) -> AppView {
    AppView {
        state: StateView {
            tree,
            visible: file_utils::visible_tree(tree, v.state.root, v.state.order.len()),
            ..v.state
        },
        ..v
    }
}

/// The tree with every directory collapsed but the root.
pub open spec fn collapsed_tree(t: TreeView, root: PathView) -> TreeView {
    let tree = file_utils::with_expansion(t, false);
    if tree.dom().contains(root) {
        tree.insert(root, NodeView { is_expanded: true, ..tree[root] })
    } else {
        tree
    }
}

/// The app with every visible item selected and all token counts forgotten.
pub open spec fn all_selected(v: AppView, now: u64) -> AppView {
    if file_tree::visible_known(v.state) {
        app::with_status(
            AppView {
                state: StateView {
                    tree: file_utils::with_selection(
                        v.state.tree,
                        |p: PathView| v.state.visible.contains(p),
                        true,
                    ),
                    descendants_dirty: true,
                    counts: Map::empty(),
                    ..v.state
                },
                pending: Set::empty(),
                bulk: true,
                suppress: false,
                ..v
            },
            "Selected all items - calculating tokens..."@,
            now,
        )
    } else {
        app::with_status(v, "Error selecting items: Path not found in file tree"@, now)
    }
}

/// The app with nothing selected.
pub open spec fn all_unselected(v: AppView, now: u64) -> AppView {
    app::with_status(
        AppView {
            state: StateView {
                tree: file_utils::with_selection(v.state.tree, |p: PathView| true, false),
                descendants_dirty: true,
                counts: Map::empty(),
                ..v.state
            },
            pending: Set::empty(),
            token_count: 0,
            bulk: false,
            suppress: false,
            ..v
        },
        "Unselected all items"@,
        now,
    )
}

/// The app after a key that has done its work in the file tree, and the files to count.
pub open spec fn after_input(v: AppView, code: KeyCode, now: u64) -> (AppView, Seq<PathView>) {
    match code {
        KeyCode::Char(' ') => tokens::tokens_updated_debounced(
            AppView {
                state: StateView { descendants_dirty: true, ..v.state },
                suppress: false,
                ..v
            },
            now,
        ),
        KeyCode::Char('h') | KeyCode::Char('l') | KeyCode::Left | KeyCode::Right => if v.bulk {
            tokens::tokens_updated_debounced(v, now)
        } else {
            (v, Seq::empty())
        },
        KeyCode::Up | KeyCode::Down | KeyCode::Char('j') | KeyCode::Char('k') => (
            AppView {
                status_message: if text::contains_seq(v.status_message, "Calculating tokens"@)
                    && !v.bulk {
                    Seq::empty()
                } else {
                    v.status_message
                },
                suppress: true,
                ..v
            },
            Seq::empty(),
        ),
        _ => (v, Seq::empty()),
    }
}

/// The app after a key that is left to the user interface, and the files to count.
pub open spec fn ui_key(v: AppView, key: KeyEvent, now: u64) -> (AppView, Seq<PathView>) {
    let (state, handled) = ui::input(v.state, key);
    let moved = AppView { state, ..v };
    if handled {
        after_input(moved, key.code, now)
    } else {
        (moved, Seq::empty())
    }
}

/// The app after a key, and what is to be done.
pub open spec fn key_pressed(v: AppView, key: KeyEvent, now: u64) -> (AppView, OutcomeView) {
    if key.code == KeyCode::Char('q') || key.code == KeyCode::Esc || (key.code == KeyCode::Char('c')
        && key.control) {
        (v, OutcomeView::Quit)
    } else if key.code == KeyCode::Char('r') {
        let (w, run) = backend::run_requested(v, now);
        (w, OutcomeView::Run(run))
    } else if option_of(key.code, v.state.options.backend) is Some {
        let option = option_of(key.code, v.state.options.backend)->0;
        (option_changed(v, option), OutcomeView::Save(option))
    } else if key.code == KeyCode::Char('E') {
        (
            app::with_status(
                with_tree(v, file_utils::with_expansion(v.state.tree, true)),
                "Expanded all directories"@,
                now,
            ),
            OutcomeView::Continue(Seq::empty()),
        )
    } else if key.code == KeyCode::Char('C') {
        (
            app::with_status(
                with_tree(v, collapsed_tree(v.state.tree, v.state.root)),
                "Collapsed all directories"@,
                now,
            ),
            OutcomeView::Continue(Seq::empty()),
        )
    } else if key.code == KeyCode::Char('A') {
        let (w, files) = tokens::tokens_updated(all_selected(v, now), now);
        (w, OutcomeView::Continue(files))
    } else if key.code == KeyCode::Char('U') {
        (all_unselected(v, now), OutcomeView::Continue(Seq::empty()))
    } else {
        let (w, files) = ui_key(v, key, now);
        (w, OutcomeView::Continue(files))
    }
}

/// The first row of the list of files on the screen.
pub open spec fn first_row(backend: Backend) -> nat {
    match backend {
        Backend::Repomix => 5,
        Backend::Yek => 2,
    }
}

/// The item of the list that a click on the row is on.
pub open spec fn clicked_index(s: StateView, row: u16) -> Option<usize> {
    if row >= first_row(s.options.backend) && row - first_row(s.options.backend)
        < s.visible.len() {
        Some((row - first_row(s.options.backend)) as usize)
    } else {
        None
    }
}

/// Whether a click on the column is on the icon of a directory.
pub open spec fn on_icon(n: NodeView, column: u16) -> bool {
    let start = file_tree::display_depth(n) * 2;
    start <= column <= start + 4
}

/// The state after a click on the item `i` of the list.
pub open spec fn item_clicked(s: StateView, i: usize, column: u16) -> StateView {
    let marked = StateView { selected_index: i, ..s };
    let p = s.visible[i as int];
    if s.tree[p].is_directory && on_icon(s.tree[p], column) {
        file_tree::with_toggled_expansion(marked, p)
    } else {
        StateView {
            tree: file_utils::with_toggled_selection(s.tree, p),
            descendants_dirty: true,
            ..marked
        }
    }
}

/// The app after a click, and the files to count.
pub open spec fn clicked(v: AppView, column: u16, row: u16, now: u64) -> (AppView, Seq<PathView>) {
    match clicked_index(v.state, row) {
        None => (v, Seq::empty()),
        Some(i) => if v.state.tree.dom().contains(v.state.visible[i as int]) {
            tokens::tokens_updated_debounced(
                AppView { state: item_clicked(v.state, i, column), ..v },
                now,
            )
        } else {
            (AppView { state: StateView { selected_index: i, ..v.state }, ..v }, Seq::empty())
        },
    }
}

/// The app after an event of the mouse, and the files to count.
pub open spec fn mouse_used(v: AppView, mouse: MouseEvent, now: u64) -> (AppView, Seq<PathView>) {
    match mouse.kind {
        MouseEventKind::LeftDown => clicked(v, mouse.column, mouse.row, now),
        MouseEventKind::ScrollUp => (
            AppView { state: file_tree::moved_up(v.state), ..v },
            Seq::empty(),
        ),
        MouseEventKind::ScrollDown => (
            AppView { state: file_tree::moved_down(v.state), ..v },
            Seq::empty(),
        ),
        MouseEventKind::Other => (v, Seq::empty()),
    }
}

/// Every visible path of the app is in the tree.
pub proof fn lemma_visible_known(v: AppView)
    requires
        app::consistent(v),
    ensures
        file_tree::visible_known(v.state),
{
    let s = v.state;
    assert forall|i: int| 0 <= i < s.visible.len() implies s.tree.dom().contains(
        #[trigger] s.visible[i],
    ) by {
        assert(s.visible.contains(s.visible[i]));
        tree_laws::lemma_visible_in_tree(s.tree, s.root, s.order.len(), s.visible[i]);
    }
}

/// Selecting or unselecting nodes keeps what always holds.
proof fn lemma_selection_consistent(
    v: AppView,
    which: spec_fn(PathView) -> bool,
    selected: bool,
)
    requires
        app::consistent(v),
        forall|p: PathView| v.state.order.contains(p) ==> #[trigger] v.state.tree.dom().contains(p),
    ensures
        app::tree_linked(file_utils::with_selection(v.state.tree, which, selected), v.state.root),
        token_totals::fits(
            file_utils::with_selection(v.state.tree, which, selected),
            v.state.order,
            v.state.counts,
        ),
        v.state.visible == file_utils::visible_tree(
            file_utils::with_selection(v.state.tree, which, selected),
            v.state.root,
            v.state.order.len(),
        ),
{
    let tree = file_utils::with_selection(v.state.tree, which, selected);
    assert(tree.dom() =~= v.state.tree.dom());
    app::lemma_tree_kept(v.state, tree);
    tree_laws::lemma_selection_keeps_visible(
        v.state.tree,
        which,
        selected,
        v.state.root,
        v.state.order.len(),
    );
}

/// Expanding or collapsing a directory keeps what always holds, but for the list on the screen.
proof fn lemma_toggled_kept(v: AppView, p: PathView)
    requires
        app::consistent(v),
        forall|q: PathView| v.state.order.contains(q) ==> #[trigger] v.state.tree.dom().contains(q),
        v.state.tree.dom().contains(p),
    ensures
        app::tree_linked(
            v.state.tree.insert(p, types::toggled(v.state.tree[p])),
            v.state.root,
        ),
        token_totals::fits(
            v.state.tree.insert(p, types::toggled(v.state.tree[p])),
            v.state.order,
            v.state.counts,
        ),
{
    let tree = v.state.tree.insert(p, types::toggled(v.state.tree[p]));
    assert(tree.dom() =~= v.state.tree.dom());
    app::lemma_tree_kept(v.state, tree);
}

/// A key that the user interface handles keeps what always holds.
proof fn lemma_input_consistent(v: AppView, key: KeyEvent)
    requires
        app::consistent(v),
        forall|p: PathView| v.state.order.contains(p) ==> #[trigger] v.state.tree.dom().contains(p),
    ensures
        app::consistent(AppView { state: ui::input(v.state, key).0, ..v }),
{
    let s = v.state;
    if s.selected_index < s.visible.len() {
        let p = s.visible[s.selected_index as int];
        if s.tree.dom().contains(p) {
            lemma_selection_consistent(
                v,
                |q: PathView| p.is_prefix_of(q),
                !s.tree[p].is_selected,
            );
            lemma_toggled_kept(v, p);
        }
    }
}

/// What a switch is set to.
fn switch_word(on: bool) -> (r: &'static str)
    ensures
        r@ == switch_text(on),
{
    if on {
        "enabled"
    } else {
        "disabled"
    }
}

/// The option that a key changes, where repomix is the backend.
fn find_option(code: KeyCode, backend: Backend) -> (r: Option<ConfigOption>)
    ensures
        r == option_of(code, backend),
{
    match backend {
        Backend::Yek => None,
        Backend::Repomix => match code {
            KeyCode::Char('c') => Some(ConfigOption::Compress),
            KeyCode::Char('m') => Some(ConfigOption::RemoveComments),
            KeyCode::Char('f') => Some(ConfigOption::OutputFormat),
            KeyCode::Char('t') => Some(ConfigOption::FileTree),
            _ => None,
        },
    }
}

/// The options with one of them changed.
fn change_options(options: &RepomixOptions, option: ConfigOption) -> (r: RepomixOptions)
    ensures
        r == changed_options(*options, option),
{
    let mut r = options.clone();
    match option {
        ConfigOption::Compress => {
            r.compress = !r.compress;
        },
        ConfigOption::RemoveComments => {
            r.remove_comments = !r.remove_comments;
        },
        ConfigOption::OutputFormat => {
            r.output_format = r.output_format.cycled();
        },
        ConfigOption::FileTree => {
            r.file_tree = !r.file_tree;
        },
    }
    r
}

/// Collapses every directory but the root.
fn collapse_to_root(tree: &mut FileTree, root: &FilePath)
    requires
        old(tree).wf(),
    ensures
        final(tree).wf(),
        final(tree).keys() == old(tree).keys(),
        final(tree)@ == collapsed_tree(old(tree)@, root@),
{
    file_utils::collapse_all_directories(tree);
    let at: Option<usize> = tree.position(root);
    if let Some(i) = at {
        tree.set_expanded_at(i, true);
    }
}

/// Whether a click on the column is on the icon of a directory.
fn hits_icon(node: &FileNode, column: u16) -> (r: bool)
    ensures
        r == on_icon(node@, column),
{
    let start: u128 = if node.depth == 0 {
        0
    } else {
        (node.depth - 1) as u128 * 2
    };
    start <= column as u128 && column as u128 <= start + 4
}

/// A list without files.
fn no_files() -> (r: Vec<FilePath>)
    ensures
        path::paths(r@) == Seq::<PathView>::empty(),
{
    let r: Vec<FilePath> = Vec::new();
    assert(path::paths(r@) =~= Seq::empty());
    r
}

impl App {
    /// Changes an option, in use and in the configuration that is to be saved.
    fn change_option(&mut self, option: ConfigOption)
        requires
            old(self).wf(),
        ensures
            final(self).wf(),
            final(self)@ == option_changed(old(self)@, option),
    {
        let options = change_options(&self.state.repomix_options, option);
        self.state.repomix_options = options;
        self.save_repomix_options();
    }

    /// Says what came of saving a changed option.
    pub fn option_saved(&mut self, option: ConfigOption, error: Option<&str>, now: u64)
        requires
            old(self).wf(),
        ensures
            final(self).wf(),
            final(self)@ == option_reported(
                old(self)@,
                option,
                match error {
                    Some(e) => Some(e@),
                    None => None,
                },
                now,
            ),
    {
        let message = match error {
            Some(e) => text::concat2("Error: config save error ", e),
            None => match option {
                ConfigOption::Compress => text::concat2(
                    "Compress: ",
                    switch_word(self.state.repomix_options.compress),
                ),
                ConfigOption::RemoveComments => text::concat2(
                    "Remove comments: ",
                    switch_word(self.state.repomix_options.remove_comments),
                ),
                ConfigOption::OutputFormat => text::concat2(
                    "Output format: ",
                    self.state.repomix_options.output_format.display_name(),
                ),
                ConfigOption::FileTree => text::concat2(
                    "File tree: ",
                    switch_word(self.state.repomix_options.file_tree),
                ),
            },
        };
        self.set_status_message(message, now);
    }

    /// Expands all directories.
    fn expand_all(&mut self, now: u64)
        requires
            old(self).wf(),
        ensures
            final(self).wf(),
            final(self)@ == app::with_status(
                with_tree(old(self)@, file_utils::with_expansion(old(self)@.state.tree, true)),
                "Expanded all directories"@,
                now,
            ),
    {
        file_utils::expand_all_directories(&mut self.state.file_tree);
        self.state.visible_paths =
        file_utils::flatten_visible_tree(&self.state.file_tree, &self.state.root_path);
        proof {
            old(self).state.file_tree.lemma_keys();
            assert(self@.state.tree.dom() =~= old(self)@.state.tree.dom());
            app::lemma_tree_kept(old(self)@.state, self@.state.tree);
        }
        self.set_status_message("Expanded all directories".to_string(), now);
    }

    /// Collapses all directories but the root.
    fn collapse_all(&mut self, now: u64)
        requires
            old(self).wf(),
        ensures
            final(self).wf(),
            final(self)@ == app::with_status(
                with_tree(
                    old(self)@,
                    collapsed_tree(old(self)@.state.tree, old(self)@.state.root),
                ),
                "Collapsed all directories"@,
                now,
            ),
    {
        collapse_to_root(&mut self.state.file_tree, &self.state.root_path);
        self.state.visible_paths =
        file_utils::flatten_visible_tree(&self.state.file_tree, &self.state.root_path);
        proof {
            old(self).state.file_tree.lemma_keys();
            assert(self@.state.tree.dom() =~= old(self)@.state.tree.dom());
            app::lemma_tree_kept(old(self)@.state, self@.state.tree);
        }
        self.set_status_message("Collapsed all directories".to_string(), now);
    }

    /// Selects all visible items.
    fn select_all(&mut self, now: u64)
        requires
            old(self).wf(),
        ensures
            final(self).wf(),
            final(self)@ == all_selected(old(self)@, now),
    {
        let ghost v = self@;
        proof {
            self.state.file_tree.lemma_keys();
            lemma_visible_known(v);
            lemma_selection_consistent(v, |p: PathView| v.state.visible.contains(p), true);
            token_totals::lemma_empty_fits(
                file_utils::with_selection(
                    v.state.tree,
                    |p: PathView| v.state.visible.contains(p),
                    true,
                ),
                v.state.order,
            );
        }
        match file_utils::select_all_visible_files(
            &mut self.state.file_tree,
            &self.state.visible_paths,
        ) {
            Ok(()) => {
                self.state.dir_descendants_dirty = true;
                self.state.individual_token_counts.clear();
                self.pending_token_calculations.clear();
                self.is_bulk_token_calculation = true;
                self.suppress_status_messages = false;
                self.set_status_message(
                    "Selected all items - calculating tokens...".to_string(),
                    now,
                );
            },
            Err(e) => {
                self.set_status_message(
                    text::concat2("Error selecting items: ", e.as_str()),
                    now,
                );
            },
        }
    }

    /// Unselects all items.
    fn unselect_all(&mut self, now: u64)
        requires
            old(self).wf(),
        ensures
            final(self).wf(),
            final(self)@ == all_unselected(old(self)@, now),
    {
        proof {
            self.state.file_tree.lemma_keys();
            lemma_selection_consistent(self@, |p: PathView| true, false);
            token_totals::lemma_empty_fits(
                file_utils::with_selection(self@.state.tree, |p: PathView| true, false),
                self@.state.order,
            );
        }
        file_utils::unselect_all_items(&mut self.state.file_tree);
        self.state.dir_descendants_dirty = true;
        self.state.individual_token_counts.clear();
        self.pending_token_calculations.clear();
        self.token_count = 0;
        self.is_bulk_token_calculation = false;
        self.suppress_status_messages = false;
        self.set_status_message("Unselected all items".to_string(), now);
    }

    /// Does what follows a key that has done its work in the file tree.
    fn follow_input(&mut self, code: KeyCode, now: u64) -> (r: Vec<FilePath>)
        requires
            old(self).wf(),
        ensures
            final(self).wf(),
            (final(self)@, path::paths(r@)) == after_input(old(self)@, code, now),
    {
        match code {
            KeyCode::Char(' ') => {
                self.suppress_status_messages = false;
                self.state.dir_descendants_dirty = true;
                self.update_token_count_debounced(now)
            },
            KeyCode::Char('h') | KeyCode::Char('l') | KeyCode::Left | KeyCode::Right => {
                if self.is_bulk_token_calculation {
                    self.update_token_count_debounced(now)
                } else {
                    no_files()
                }
            },
            KeyCode::Up | KeyCode::Down | KeyCode::Char('j') | KeyCode::Char('k') => {
                if text::contains_text(self.status_message.as_str(), "Calculating tokens")
                    && !self.is_bulk_token_calculation {
                    self.clear_status_message();
                }
                self.suppress_status_messages = true;
                no_files()
            },
            _ => no_files(),
        }
    }

    /// Leaves a key to the user interface.
    fn handle_ui_key(&mut self, key: KeyEvent, now: u64) -> (r: Vec<FilePath>)
        requires
            old(self).wf(),
        ensures
            final(self).wf(),
            (final(self)@, path::paths(r@)) == ui_key(old(self)@, key, now),
    {
        proof {
            self.state.file_tree.lemma_keys();
            lemma_input_consistent(self@, key);
        }
        let input_handled = ui::handle_input(&mut self.state, &mut self.ui_state, key);
        if input_handled {
            self.follow_input(key.code, now)
        } else {
            no_files()
        }
    }

    /// Handles keyboard input events: returns what is to be done.
    pub fn handle_key_event(&mut self, key: KeyEvent, now: u64) -> (r: KeyOutcome)
        requires
            old(self).wf(),
            key.code == KeyCode::Char('r') && backend::can_start(old(self)@) ==> old(
                self,
            ).next_request_id < u64::MAX,
        ensures
            final(self).wf(),
            (final(self)@, r@) == key_pressed(old(self)@, key, now),
            r matches KeyOutcome::Run(run) ==> (run.request matches Some(request)
                ==> request.file_tree.wf()),
    {
        if key.code == KeyCode::Char('q') || key.code == KeyCode::Esc || (key.code
            == KeyCode::Char('c') && key.control) {
            return KeyOutcome::Quit;
        }
        if key.code == KeyCode::Char('r') {
            return KeyOutcome::Run(self.run_backend(now));
        }
        if let Some(option) = find_option(key.code, self.state.repomix_options.backend) {
            self.change_option(option);
            return KeyOutcome::Save(option);
        }
        if key.code == KeyCode::Char('E') {
            self.expand_all(now);
            return KeyOutcome::Continue(no_files());
        }
        if key.code == KeyCode::Char('C') {
            self.collapse_all(now);
            return KeyOutcome::Continue(no_files());
        }
        if key.code == KeyCode::Char('A') {
            self.select_all(now);
            let files = self.update_token_count_non_blocking(now);
            return KeyOutcome::Continue(files);
        }
        if key.code == KeyCode::Char('U') {
            self.unselect_all(now);
            return KeyOutcome::Continue(no_files());
        }
        KeyOutcome::Continue(self.handle_ui_key(key, now))
    }

    /// Calculates which file index was clicked based on the row position.
    /// Returns none if the click was outside the file list area.
    pub fn calculate_clicked_file_index(&self, row: u16) -> (r: Option<usize>)
        ensures
            r == clicked_index(self@.state, row),
    {
        assert(self@.state.visible.len() == self.state.visible_paths@.len());
        let file_list_start_row: u16 = match self.state.repomix_options.backend {
            Backend::Repomix => 5,
            Backend::Yek => 2,
        };
        if row < file_list_start_row {
            return None;
        }
        let file_row = (row - file_list_start_row) as usize;
        if file_row < self.state.visible_paths.len() {
            Some(file_row)
        } else {
            None
        }
    }

    /// Handles mouse clicks by determining which UI element was clicked,
    /// and performing the corresponding action (selection, expansion).
    pub fn handle_mouse_click(&mut self, column: u16, row: u16, now: u64) -> (r: Vec<FilePath>)
        requires
            old(self).wf(),
        ensures
            final(self).wf(),
            (final(self)@, path::paths(r@)) == clicked(old(self)@, column, row, now),
    {
        let index = match self.calculate_clicked_file_index(row) {
            Some(i) => i,
            None => {
                return no_files();
            },
        };
        if self.click_item(index, column) {
            self.update_token_count_debounced(now)
        } else {
            no_files()
        }
    }

    /// Marks an item of the list, and expands or selects it. Returns whether it is in the tree.
    fn click_item(&mut self, index: usize, column: u16) -> (r: bool)
        requires
            old(self).wf(),
            index < old(self)@.state.visible.len(),
        ensures
            final(self).wf(),
            r <==> old(self)@.state.tree.dom().contains(old(self)@.state.visible[index as int]),
            final(self)@ == (AppView {
                state: if r {
                    item_clicked(old(self)@.state, index, column)
                } else {
                    StateView { selected_index: index, ..old(self)@.state }
                },
                ..old(self)@
            }),
    {
        let ghost v = self@;
        let path = self.state.visible_paths[index].clone();
        let at: Option<usize> = self.state.file_tree.position(&path);
        self.state.selected_index = index;
        let i: usize = match at {
            Some(i) => i,
            None => {
                return false;
            },
        };
        proof {
            old(self).state.file_tree.lemma_keys();
            lemma_toggled_kept(v, path@);
            lemma_selection_consistent(
                v,
                |q: PathView| path@.is_prefix_of(q),
                !v.state.tree[path@].is_selected,
            );
        }
        let node = self.state.file_tree.value_at(i);
        if node.is_directory && hits_icon(node, column) {
            self.state.file_tree.toggle_expansion_at(i);
            file_tree::update_visible_files(&mut self.state);
        } else {
            file_tree::handle_selection_key(&mut self.state, &path);
            self.state.dir_descendants_dirty = true;
        }
        true
    }

    /// Handles mouse input events: returns the files to count.
    pub fn handle_mouse_event(&mut self, mouse: MouseEvent, now: u64) -> (r: Vec<FilePath>)
        requires
            old(self).wf(),
        ensures
            final(self).wf(),
            (final(self)@, path::paths(r@)) == mouse_used(old(self)@, mouse, now),
    {
        match mouse.kind {
            MouseEventKind::LeftDown => self.handle_mouse_click(mouse.column, mouse.row, now),
            MouseEventKind::ScrollUp => {
                file_tree::move_up(&mut self.state);
                no_files()
            },
            MouseEventKind::ScrollDown => {
                file_tree::move_down(&mut self.state);
                no_files()
            },
            MouseEventKind::Other => no_files(),
        }
    }
}

} // verus!
