//! The file tree on the screen: its rows, its frame, and the keys that move in it.

use vstd::prelude::*;
use vstd::string::*;

use crate::file_utils;
use crate::path;
use crate::path::{FilePath, PathView};
use crate::path_map::PathMap;
use crate::text;
use crate::token_counter;
use crate::token_totals::TokenCounts;
use crate::types;
use crate::types::{AppState, Backend, FileTree, NodeView, RepomixOptions, StateView};
use crate::ui::{KeyCode, KeyEvent};

verus! {

/// The state with the marked row one further up, from the first row to the last.
pub open spec fn moved_up(s: StateView) -> StateView {
    StateView {
        selected_index: if s.visible.len() == 0 {
            s.selected_index
        } else if s.selected_index == 0 {
            (s.visible.len() - 1) as usize
        } else {
            (s.selected_index - 1) as usize
        },
        ..s
    }
}

/// The state with the marked row one further down, from the last row to the first.
pub open spec fn moved_down(s: StateView) -> StateView {
    StateView {
        selected_index: if s.visible.len() == 0 {
            s.selected_index
        } else if s.selected_index >= s.visible.len() - 1 {
            0
        } else {
            (s.selected_index + 1) as usize
        },
        ..s
    }
}

/// The state with the list of visible paths built anew, and with the mark on the last row where
/// its row is gone.
pub open spec fn refreshed(s: StateView) -> StateView {
    let visible = file_utils::visible_tree(s.tree, s.root, s.order.len());
    StateView {
        visible,
        selected_index: if s.selected_index < visible.len() {
            s.selected_index
        } else if visible.len() == 0 {
            0
        } else {
            (visible.len() - 1) as usize
        },
        ..s
    }
}

/// The state with the directory at `p` expanded, or collapsed where it was expanded.
pub open spec fn with_toggled_expansion(s: StateView, p: PathView) -> StateView {
    refreshed(StateView { tree: s.tree.insert(p, types::toggled(s.tree[p])), ..s })
}

/// The state with the directory of the marked row expanded, or collapsed, unless it is so already.
pub open spec fn with_marked_expansion(s: StateView, expanded: bool) -> StateView {
    if s.selected_index < s.visible.len() {
        let p = s.visible[s.selected_index as int];
        if s.tree.dom().contains(p) && s.tree[p].is_directory && s.tree[p].is_expanded != expanded {
            with_toggled_expansion(s, p)
        } else {
            s
        }
    } else {
        s
    }
}

/// The state with the selection toggled at `p` and all below it.
pub open spec fn with_toggled_at(s: StateView, p: PathView) -> StateView {
    if s.tree.dom().contains(p) {
        StateView { tree: file_utils::with_toggled_selection(s.tree, p), ..s }
    } else {
        s
    }
}

/// What a key does to the file tree, and whether it has a meaning here.
pub open spec fn file_tree_input(s: StateView, code: KeyCode) -> (StateView, bool) {
    match code {
        KeyCode::Up | KeyCode::Char('k') => (moved_up(s), true),
        KeyCode::Down | KeyCode::Char('j') => (moved_down(s), true),
        KeyCode::Char(' ') => (
            if s.selected_index < s.visible.len() {
                with_toggled_at(s, s.visible[s.selected_index as int])
            } else {
                s
            },
            true,
        ),
        KeyCode::Char('h') | KeyCode::Left => (with_marked_expansion(s, false), true),
        KeyCode::Char('l') | KeyCode::Right => (with_marked_expansion(s, true), true),
        _ => (s, false),
    }
}

/// Updates the visible files list based on current expansion states.
/// rebuilds the flattened tree view that gets displayed.
pub fn update_visible_files(app_state: &mut AppState)
    requires
        old(app_state).wf(),
    ensures
        final(app_state).wf(),
        final(app_state)@ == refreshed(old(app_state)@),
{
    app_state.visible_paths = file_utils::flatten_visible_tree(
        &app_state.file_tree,
        &app_state.root_path,
    );
    assert(path::paths(app_state.visible_paths@).len() == app_state.visible_paths@.len());
    if app_state.selected_index >= app_state.visible_paths.len() {
        app_state.selected_index = if app_state.visible_paths.len() == 0 {
            0
        } else {
            app_state.visible_paths.len() - 1
        };
    }
}

/// Toggles the expansion of the directory of the marked row, where its state is not `expanded`.
fn expand_marked(app_state: &mut AppState, expanded: bool)
    requires
        old(app_state).wf(),
    ensures
        final(app_state).wf(),
        final(app_state)@ == with_marked_expansion(old(app_state)@, expanded),
{
    assert(app_state@.visible.len() == app_state.visible_paths@.len());
    if app_state.selected_index < app_state.visible_paths.len() {
        let at: Option<usize> = app_state.file_tree.position(
            &app_state.visible_paths[app_state.selected_index],
        );
        if let Some(i) = at {
            let node = app_state.file_tree.value_at(i);
            if node.is_directory && node.is_expanded != expanded {
                app_state.file_tree.toggle_expansion_at(i);
                update_visible_files(app_state);
            }
        }
    }
}

/// Handles selection key press for file and directory selection.
pub fn handle_selection_key(app_state: &mut AppState, selected_path: &FilePath)
    requires
        old(app_state).wf(),
    ensures
        final(app_state).wf(),
        final(app_state)@ == with_toggled_at(old(app_state)@, selected_path@),
{
    let _ = file_utils::toggle_selection_recursive(&mut app_state.file_tree, selected_path);
}

/// Handles keyboard input for file tree.
/// Returns true if input was handled, false otherwise.
pub fn handle_file_tree_input(app_state: &mut AppState, key: KeyEvent) -> (r: bool)
    requires
        old(app_state).wf(),
    ensures
        final(app_state).wf(),
        (final(app_state)@, r) == file_tree_input(old(app_state)@, key.code),
{
    assert(app_state@.visible.len() == app_state.visible_paths@.len());
    match key.code {
        KeyCode::Up | KeyCode::Char('k') => {
            move_up(app_state);
            true
        },
        KeyCode::Down | KeyCode::Char('j') => {
            move_down(app_state);
            true
        },
        KeyCode::Char(' ') => {
            if app_state.selected_index < app_state.visible_paths.len() {
                let selected_path = app_state.visible_paths[app_state.selected_index].clone();
                handle_selection_key(app_state, &selected_path);
            }
            true
        },
        KeyCode::Char('h') | KeyCode::Left => {
            expand_marked(app_state, false);
            true
        },
        KeyCode::Char('l') | KeyCode::Right => {
            expand_marked(app_state, true);
            true
        },
        _ => false,
    }
}

/// Marks the row further up.
pub fn move_up(app_state: &mut AppState)
    requires
        old(app_state).wf(),
    ensures
        final(app_state).wf(),
        final(app_state)@ == moved_up(old(app_state)@),
{
    assert(app_state@.visible.len() == app_state.visible_paths@.len());
    if app_state.visible_paths.len() == 0 {
    } else if app_state.selected_index == 0 {
        app_state.selected_index = app_state.visible_paths.len() - 1;
    } else {
        app_state.selected_index = app_state.selected_index - 1;
    }
}

/// Marks the row further down.
pub fn move_down(app_state: &mut AppState)
    requires
        old(app_state).wf(),
    ensures
        final(app_state).wf(),
        final(app_state)@ == moved_down(old(app_state)@),
{
    assert(app_state@.visible.len() == app_state.visible_paths@.len());
    if app_state.visible_paths.len() == 0 {
    } else if app_state.selected_index >= app_state.visible_paths.len() - 1 {
        app_state.selected_index = 0;
    } else {
        app_state.selected_index = app_state.selected_index + 1;
    }
}

/// A color on the screen.
#[derive(Debug, Clone, Copy, PartialEq, Eq, Structural)]
pub enum Color {
    Green,
    Gray,
    White,
    Cyan,
    Yellow,
    Red,
    LightBlue,
}

/// A piece of text in one color, or in that of its surroundings.
#[derive(Debug, PartialEq, Eq)]
pub struct Span {
    pub text: String,
    pub color: Option<Color>,
}

/// The mathematical value of a [`Span`].
#[verifier::ext_equal]
pub struct SpanView {
    pub text: Seq<char>,
    pub color: Option<Color>,
}

impl View for Span {
    type V = SpanView;

    open spec fn view(&self) -> SpanView {
        SpanView { text: self.text@, color: self.color }
    }
}

/// The view of a line.
pub open spec fn spans(line: Seq<Span>) -> Seq<SpanView> {
    line.map_values(|s: Span| s@)
}

/// The view of a list of lines.
pub open spec fn lines(list: Seq<Vec<Span>>) -> Seq<Seq<SpanView>> {
    list.map_values(|l: Vec<Span>| spans(l@))
}

/// How much room a part of the screen takes.
#[derive(Debug, Clone, Copy, PartialEq, Eq, Structural)]
pub enum Constraint {
    /// Exactly so many rows
    Length(u16),
    /// At least so many rows
    Min(u16),
}

/// The box with the file tree.
#[derive(Debug, PartialEq, Eq)]
pub struct FileTreeSection {
    /// The title of the box
    pub title: Span,
    /// The directory and the number of selected files
    pub info: Span,
    /// The number of tokens
    pub tokens: Span,
    /// The rows of the file tree
    pub rows: Vec<Vec<Span>>,
    /// The status message, where there is one
    pub status: Option<Span>,
    /// The keys that can be pressed
    pub hints: Span,
    /// The room that the parts take, from the top
    pub layout: Vec<Constraint>,
    /// Which part holds the keys
    pub hints_index: usize,
}

/// The mathematical value of a [`FileTreeSection`].
#[verifier::ext_equal]
pub struct SectionView {
    pub title: SpanView,
    pub info: SpanView,
    pub tokens: SpanView,
    pub rows: Seq<Seq<SpanView>>,
    pub status: Option<SpanView>,
    pub hints: SpanView,
    pub layout: Seq<Constraint>,
    pub hints_index: usize,
}

impl View for FileTreeSection {
    type V = SectionView;

    open spec fn view(&self) -> SectionView {
        SectionView {
            title: self.title@,
            info: self.info@,
            tokens: self.tokens@,
            rows: lines(self.rows@),
            status: match self.status {
                Some(s) => Some(s@),
                None => None,
            },
            hints: self.hints@,
            layout: self.layout@,
            hints_index: self.hints_index,
        }
    }
}

/// The whole screen: the file tree, below the configuration where the backend has one.
#[derive(Debug, PartialEq, Eq)]
pub struct Screen {
    /// The line with the options of the backend
    pub configuration: Option<Vec<Span>>,
    /// The room that the boxes take, from the top
    pub layout: Vec<Constraint>,
    /// The box with the file tree
    pub section: FileTreeSection,
}

/// The mathematical value of a [`Screen`].
#[verifier::ext_equal]
pub struct ScreenView {
    pub configuration: Option<Seq<SpanView>>,
    pub layout: Seq<Constraint>,
    pub section: SectionView,
}

impl View for Screen {
    type V = ScreenView;

    open spec fn view(&self) -> ScreenView {
        ScreenView {
            configuration: match self.configuration {
                Some(line) => Some(spans(line@)),
                None => None,
            },
            layout: self.layout@,
            section: self.section@,
        }
    }
}

/// A piece of text in a color.
pub open spec fn styled(text: Seq<char>, color: Color) -> SpanView {
    SpanView { text, color: Some(color) }
}

/// A piece of text in the color of its surroundings.
pub open spec fn raw(text: Seq<char>) -> SpanView {
    SpanView { text, color: None }
}

/// The sign of an option that is on or off.
pub open spec fn option_sign(on: bool) -> SpanView {
    if on {
        styled("●"@, Color::Green)
    } else {
        styled("○"@, Color::Gray)
    }
}

/// The line with the options of repomix.
pub open spec fn configuration_line(options: RepomixOptions) -> Seq<SpanView> {
    seq![
        raw("Options: "@),
        option_sign(options.file_tree),
        raw(" File Tree (t) │ "@),
        option_sign(options.compress),
        raw(" Compress (c) │ "@),
        option_sign(options.remove_comments),
        raw(" Remove Comments (m) │ Format: "@),
        styled(options.output_format.name(), Color::Green),
        raw(" (f)"@),
    ]
}

/// Low token counts are green, medium ones yellow, high ones red.
pub open spec fn token_count_color(token_count: nat) -> Color {
    if token_count < 1000 {
        Color::Green
    } else if token_count < 10000 {
        Color::Yellow
    } else {
        Color::Red
    }
}

/// The color of a status message.
pub open spec fn status_color(message: Seq<char>) -> Color {
    if text::contains_seq(message, "Success"@) || text::contains_seq(
        message,
        "Copied to clipboard"@,
    ) {
        Color::Green
    } else if text::contains_seq(message, "Error"@) || text::contains_seq(message, "Failed"@) {
        Color::Red
    } else if text::contains_seq(message, "Warning"@) {
        Color::Yellow
    } else if text::contains_seq(message, "Running"@) || text::contains_seq(
        message,
        "Processing..."@,
    ) {
        Color::Cyan
    } else {
        Color::White
    }
}

/// The level of a node in the list, which does not show the root.
pub open spec fn display_depth(n: NodeView) -> nat {
    if n.depth == 0 {
        0
    } else {
        (n.depth - 1) as nat
    }
}

/// Whether something below a directory is selected, as far as the map says so.
pub open spec fn marked_below(descendants: Map<PathView, bool>, p: PathView) -> bool {
    descendants.dom().contains(p) && descendants[p]
}

/// The icon of a node.
pub open spec fn node_icon(n: NodeView) -> Seq<char> {
    if n.is_directory {
        if n.is_expanded {
            "[-]"@
        } else {
            "[+]"@
        }
    } else if n.is_selected {
        "●"@
    } else {
        "○"@
    }
}

/// The color of a node: white on the highlighted row, green where it is selected, and else by what
/// it is and what it holds.
pub open spec fn node_color(n: NodeView, below: bool, is_highlighted: bool) -> Color {
    if is_highlighted {
        Color::White
    } else if n.is_selected {
        Color::Green
    } else if !n.is_directory {
        Color::White
    } else if display_depth(n) > 0 && below {
        Color::Yellow
    } else {
        Color::Cyan
    }
}

/// The row of a node: its place, icon and name, and its token count where one is known and shown.
pub open spec fn list_item(
    n: NodeView,
    count: Option<usize>,
    below: bool,
    is_highlighted: bool,
) -> Seq<SpanView> {
    let main = styled(
        text::repeated("  "@, display_depth(n)) + node_icon(n) + " "@ + n.name,
        node_color(n, below, is_highlighted),
    );
    if (n.is_selected || (n.is_directory && below)) && count is Some {
        seq![
            main,
            styled(
                " ("@ + token_counter::token_count_text(count->0 as nat) + ")"@,
                if is_highlighted {
                    Color::LightBlue
                } else {
                    token_count_color(count->0 as nat)
                },
            ),
        ]
    } else {
        seq![main]
    }
}

/// The count of a path, where there is one.
pub open spec fn found_count(counts: Map<PathView, Option<usize>>, p: PathView) -> Option<usize> {
    if counts.dom().contains(p) {
        counts[p]
    } else {
        None
    }
}

/// The row of the file tree that is highlighted.
pub open spec fn highlighted(s: StateView) -> Option<usize> {
    if s.visible.len() == 0 {
        None
    } else if s.selected_index < s.visible.len() {
        Some(s.selected_index)
    } else {
        Some((s.visible.len() - 1) as usize)
    }
}

/// Every visible path is in the tree.
pub open spec fn visible_known(s: StateView) -> bool {
    forall|i: int| 0 <= i < s.visible.len() ==> s.tree.dom().contains(#[trigger] s.visible[i])
}

/// One row of the file tree.
pub open spec fn list_row(s: StateView, i: int) -> Seq<SpanView> {
    let p = s.visible[i];
    list_item(
        s.tree[p],
        found_count(s.counts, p),
        marked_below(s.descendants, p),
        highlighted(s) == Some(i as usize),
    )
}

/// The rows of the file tree.
pub open spec fn list_rows(s: StateView) -> Seq<Seq<SpanView>> {
    Seq::new(s.visible.len(), |i: int| list_row(s, i))
}

/// The name of the root directory.
pub open spec fn root_name(root: PathView) -> Seq<char> {
    match path::file_name_of(root) {
        Some(name) => name,
        None => "."@,
    }
}

/// The box with the file tree.
pub open spec fn section(s: StateView, token_count: nat, status_message: Seq<char>) -> SectionView {
    SectionView {
        title: styled(
            match s.options.backend {
                Backend::Repomix => "File Tree (repomix)"@,
                Backend::Yek => "File Tree (yek)"@,
            },
            Color::Green,
        ),
        info: styled(
            root_name(s.root) + "  •  Selected: "@ + text::decimal(
                file_utils::selected_files(s.tree, s.order).len(),
            ) + " items"@,
            Color::Cyan,
        ),
        tokens: styled(
            "Tokens: "@ + token_counter::token_count_text(token_count),
            Color::Yellow,
        ),
        rows: list_rows(s),
        status: if status_message.len() > 0 {
            Some(styled("\n"@ + status_message, status_color(status_message)))
        } else {
            None
        },
        hints: styled(
            "↑/↓ navigate • ←/→ collapse/expand dirs • Space select files • E expand all • C collapse all • A select all • U unselect all • r run • q quit"@,
            Color::Yellow,
        ),
        layout: if status_message.len() > 0 {
            seq![
                Constraint::Length(1),
                Constraint::Min(0),
                Constraint::Length(3),
                Constraint::Length(2),
            ]
        } else {
            seq![Constraint::Length(1), Constraint::Min(0), Constraint::Length(2)]
        },
        hints_index: if status_message.len() > 0 {
            3
        } else {
            2
        },
    }
}

/// The whole screen.
pub open spec fn screen(s: StateView, token_count: nat, status_message: Seq<char>) -> ScreenView {
    ScreenView {
        configuration: match s.options.backend {
            Backend::Repomix => Some(configuration_line(s.options)),
            Backend::Yek => None,
        },
        layout: match s.options.backend {
            Backend::Repomix => seq![Constraint::Length(3), Constraint::Min(0)],
            Backend::Yek => seq![Constraint::Min(0)],
        },
        section: section(s, token_count, status_message),
    }
}

/// A piece of text in a color.
fn styled_span(text: &str, color: Color) -> (r: Span)
    ensures
        r@ == styled(text@, color),
{
    Span { text: text.to_string(), color: Some(color) }
}

/// A piece of text in the color of its surroundings.
fn raw_span(text: &str) -> (r: Span)
    ensures
        r@ == raw(text@),
{
    Span { text: text.to_string(), color: None }
}

/// The sign of an option that is on or off.
fn option_span(on: bool) -> (r: Span)
    ensures
        r@ == option_sign(on),
{
    if on {
        styled_span("●", Color::Green)
    } else {
        styled_span("○", Color::Gray)
    }
}

/// Renders config section at the top.
pub fn render_configuration_section(options: &RepomixOptions) -> (r: Vec<Span>)
    ensures
        spans(r@) == configuration_line(*options),
{
    let mut r: Vec<Span> = Vec::new();
    r.push(raw_span("Options: "));
    r.push(option_span(options.file_tree));
    r.push(raw_span(" File Tree (t) │ "));
    r.push(option_span(options.compress));
    r.push(raw_span(" Compress (c) │ "));
    r.push(option_span(options.remove_comments));
    r.push(raw_span(" Remove Comments (m) │ Format: "));
    r.push(styled_span(options.output_format.display_name(), Color::Green));
    r.push(raw_span(" (f)"));
    assert(spans(r@) =~= configuration_line(*options));
    r
}

/// Determines the color for token count display based on a three-tier system.
/// Provides visual feedback about token density.
pub fn get_token_count_color(token_count: usize) -> (r: Color)
    ensures
        r == token_count_color(token_count as nat),
{
    if token_count < 1_000 {
        Color::Green
    } else if token_count < 10_000 {
        Color::Yellow
    } else {
        Color::Red
    }
}

/// Determines the color of a status message.
pub fn get_status_color(message: &str) -> (r: Color)
    ensures
        r == status_color(message@),
{
    if text::contains_text(message, "Success") || text::contains_text(
        message,
        "Copied to clipboard",
    ) {
        Color::Green
    } else if text::contains_text(message, "Error") || text::contains_text(message, "Failed") {
        Color::Red
    } else if text::contains_text(message, "Warning") {
        Color::Yellow
    } else if text::contains_text(message, "Running") || text::contains_text(
        message,
        "Processing...",
    ) {
        Color::Cyan
    } else {
        Color::White
    }
}

/// Creates a formatted list item for a single file or directory.
/// Handles indentation, icons, selection indicators, and token counts with color coding.
pub fn create_list_item(
    path: &FilePath,
    file_tree: &FileTree,
    individual_token_counts: &TokenCounts,
    dir_descendants_map: &PathMap<bool>,
    is_highlighted: bool,
) -> (r: Vec<Span>)
    requires
        file_tree.wf(),
        individual_token_counts.wf(),
        dir_descendants_map.wf(),
        file_tree@.dom().contains(path@),
    ensures
        spans(r@) == list_item(
            file_tree@[path@],
            found_count(individual_token_counts@, path@),
            marked_below(dir_descendants_map@, path@),
            is_highlighted,
        ),
{
    let mut r: Vec<Span> = Vec::new();
    let below = match dir_descendants_map.get(path) {
        Some(marked) => *marked,
        None => false,
    };
    let count: Option<usize> = match individual_token_counts.get(path) {
        Some(found) => *found,
        None => None,
    };
    let ghost wanted = list_item(
        file_tree@[path@],
        found_count(individual_token_counts@, path@),
        below,
        is_highlighted,
    );
    if let Some(node) = file_tree.get(path) {
        let depth: usize = if node.depth == 0 {
            0
        } else {
            node.depth - 1
        };
        let icon = if node.is_directory {
            if node.is_expanded {
                "[-]"
            } else {
                "[+]"
            }
        } else if node.is_selected {
            "●"
        } else {
            "○"
        };
        let color = if is_highlighted {
            Color::White
        } else if node.is_selected {
            Color::Green
        } else if !node.is_directory {
            Color::White
        } else if depth > 0 && below {
            Color::Yellow
        } else {
            Color::Cyan
        };
        let indent = text::repeat_text("  ", depth);
        let mut main_text = text::concat3(indent.as_str(), icon, " ");
        main_text.append(node.name.as_str());
        r.push(Span { text: main_text, color: Some(color) });
        if node.is_selected || (node.is_directory && below) {
            if let Some(token_count) = count {
                let token_color = if is_highlighted {
                    Color::LightBlue
                } else {
                    get_token_count_color(token_count)
                };
                let shown = token_counter::format_token_count(token_count);
                r.push(
                    Span {
                        text: text::concat3(" (", shown.as_str(), ")"),
                        color: Some(token_color),
                    },
                );
            }
        }
        assert(spans(r@) =~= wanted);
    }
    r
}

/// The row of the file tree that is highlighted.
pub fn highlighted_row(app_state: &AppState) -> (r: Option<usize>)
    ensures
        r == highlighted(app_state@),
{
    assert(app_state@.visible.len() == app_state.visible_paths@.len());
    if app_state.visible_paths.len() == 0 {
        None
    } else if app_state.selected_index < app_state.visible_paths.len() {
        Some(app_state.selected_index)
    } else {
        Some(app_state.visible_paths.len() - 1)
    }
}

/// Renders the file list without borders (for use inside other blocks).
pub fn render_file_list_inner(app_state: &AppState, list_state: &mut Option<usize>) -> (r: Vec<
    Vec<Span>,
>)
    requires
        app_state.wf(),
        visible_known(app_state@),
    ensures
        lines(r@) == list_rows(app_state@),
        *final(list_state) == highlighted(app_state@),
{
    let marked = highlighted_row(app_state);
    let mut r: Vec<Vec<Span>> = Vec::new();
    let mut i: usize = 0;
    while i < app_state.visible_paths.len()
        invariant
            app_state.wf(),
            visible_known(app_state@),
            app_state@.visible.len() == app_state.visible_paths@.len(),
            marked == highlighted(app_state@),
            i <= app_state.visible_paths@.len(),
            r@.len() == i,
            forall|k: int|
                0 <= k < i ==> spans((#[trigger] r@[k])@) == list_row(app_state@, k),
        decreases app_state.visible_paths.len() - i,
    {
        assert(app_state@.visible[i as int] == app_state.visible_paths@[i as int]@);
        let is_highlighted = match marked {
            Some(row) => row == i,
            None => false,
        };
        r.push(
            create_list_item(
                &app_state.visible_paths[i],
                &app_state.file_tree,
                &app_state.individual_token_counts,
                &app_state.dir_descendants_map,
                is_highlighted,
            ),
        );
        i = i + 1;
    }
    assert(lines(r@) =~= list_rows(app_state@));
    *list_state = marked;
    r
}

/// Renders file tree section with hints and status.
pub fn render_file_tree_section_with_hints(
    app_state: &AppState,
    file_tree_list_state: &mut Option<usize>,
    token_count: usize,
    status_message: &str,
) -> (r: FileTreeSection)
    requires
        app_state.wf(),
        visible_known(app_state@),
    ensures
        r@ == section(app_state@, token_count as nat, status_message@),
        *final(file_tree_list_state) == highlighted(app_state@),
{
    let selected = file_utils::get_selected_files(&app_state.file_tree);
    assert(path::paths(selected@).len() == selected@.len());
    let selected_count = text::decimal_text(selected.len() as u128);
    let title = match app_state.repomix_options.backend {
        Backend::Repomix => styled_span("File Tree (repomix)", Color::Green),
        Backend::Yek => styled_span("File Tree (yek)", Color::Green),
    };
    let mut info_text = match app_state.root_path.file_name() {
        Some(name) => name,
        None => ".".to_string(),
    };
    info_text.append("  •  Selected: ");
    info_text.append(selected_count.as_str());
    info_text.append(" items");
    let shown = token_counter::format_token_count(token_count);
    let token_text = text::concat2("Tokens: ", shown.as_str());
    let rows = render_file_list_inner(app_state, file_tree_list_state);
    let hints = styled_span(
        "↑/↓ navigate • ←/→ collapse/expand dirs • Space select files • E expand all • C collapse all • A select all • U unselect all • r run • q quit",
        Color::Yellow,
    );
    let mut layout: Vec<Constraint> = Vec::new();
    layout.push(Constraint::Length(1));
    layout.push(Constraint::Min(0));
    let mut status: Option<Span> = None;
    let mut hints_index: usize = 2;
    if !status_message.is_empty() {
        layout.push(Constraint::Length(3));
        status =
        Some(
            Span {
                text: text::concat2("\n", status_message),
                color: Some(get_status_color(status_message)),
            },
        );
        hints_index = 3;
    }
    layout.push(Constraint::Length(2));
    let r = FileTreeSection {
        title,
        info: Span { text: info_text, color: Some(Color::Cyan) },
        tokens: Span { text: token_text, color: Some(Color::Yellow) },
        rows,
        status,
        hints,
        layout,
        hints_index,
    };
    assert(r@.layout =~= section(app_state@, token_count as nat, status_message@).layout);
    r
}

/// Renders the combined file tree and options component.
/// which displays the configuration at top and file tree below.
pub fn render_file_tree_with_options(
    app_state: &AppState,
    file_tree_list_state: &mut Option<usize>,
    token_count: usize,
    status_message: &str,
) -> (r: Screen)
    requires
        app_state.wf(),
        visible_known(app_state@),
    ensures
        r@ == screen(app_state@, token_count as nat, status_message@),
        *final(file_tree_list_state) == highlighted(app_state@),
{
    let section = render_file_tree_section_with_hints(
        app_state,
        file_tree_list_state,
        token_count,
        status_message,
    );
    let mut layout: Vec<Constraint> = Vec::new();
    let mut configuration: Option<Vec<Span>> = None;
    match app_state.repomix_options.backend {
        Backend::Repomix => {
            layout.push(Constraint::Length(3));
            configuration = Some(render_configuration_section(&app_state.repomix_options));
        },
        Backend::Yek => {},
    }
    layout.push(Constraint::Min(0));
    let r = Screen { configuration, layout, section };
    assert(r@.layout =~= screen(app_state@, token_count as nat, status_message@).layout);
    r
}

/// Going down undoes going up, and going up undoes going down, from every row of the list.
pub proof fn lemma_moves_undo(s: StateView)
    requires
        s.selected_index < s.visible.len() <= usize::MAX,
    ensures
        moved_down(moved_up(s)) == s,
        moved_up(moved_down(s)) == s,
{
}

/// The mark stays within the list, wherever it was before a move or before the list was built
/// anew.
pub proof fn lemma_mark_in_list(s: StateView)
    requires
        s.visible.len() <= usize::MAX,
        file_utils::visible_tree(s.tree, s.root, s.order.len()).len() <= usize::MAX,
    ensures
        s.visible.len() > 0 ==> moved_down(s).selected_index < s.visible.len(),
        s.selected_index < s.visible.len() ==> moved_up(s).selected_index < s.visible.len(),
        refreshed(s).visible.len() > 0 ==> refreshed(s).selected_index < refreshed(
            s,
        ).visible.len(),
        refreshed(s).visible.len() == 0 ==> refreshed(s).selected_index == 0,
        highlighted(s) matches Some(row) ==> row < s.visible.len(),
        highlighted(s) is None <==> s.visible.len() == 0,
{
}

/// The state after `n` moves down.
pub open spec fn moved_down_times(s: StateView, n: nat) -> StateView
    decreases n,
{
    if n == 0 {
        s
    } else {
        moved_down(moved_down_times(s, (n - 1) as nat))
    }
}

/// Each move down goes on by one row, around the end of the list. So as many moves as there are
/// rows visit every row once, and end where they began.
pub proof fn lemma_moves_go_around(s: StateView, n: nat)
    requires
        s.selected_index < s.visible.len() <= usize::MAX,
    ensures
        moved_down_times(s, n) == (StateView {
            selected_index: ((s.selected_index + n) % s.visible.len() as int) as usize,
            ..s
        }),
        n == s.visible.len() ==> moved_down_times(s, n) == s,
    decreases n,
{
    let rows = s.visible.len() as int;
    let start = s.selected_index as int;
    if n == 0 {
        vstd::arithmetic::div_mod::lemma_small_mod(start as nat, rows as nat);
    } else {
        let before = (n - 1) as nat;
        lemma_moves_go_around(s, before);
        let at = (start + before) % rows;
        let turns = (start + before) / rows;
        vstd::arithmetic::div_mod::lemma_fundamental_div_mod(start + before, rows);
        vstd::arithmetic::div_mod::lemma_mod_bound(start + before, rows);
        if at == rows - 1 {
            assert(start + n == (turns + 1) * rows) by (nonlinear_arith)
                requires
                    start + before == rows * turns + at,
                    at == rows - 1,
                    n == before + 1,
            ;
            vstd::arithmetic::div_mod::lemma_fundamental_div_mod_converse(
                start + n,
                rows,
                turns + 1,
                0,
            );
        } else {
            assert(start + n == turns * rows + (at + 1)) by (nonlinear_arith)
                requires
                    start + before == rows * turns + at,
                    n == before + 1,
            ;
            vstd::arithmetic::div_mod::lemma_fundamental_div_mod_converse(
                start + n,
                rows,
                turns,
                at + 1,
            );
        }
    }
    if n == s.visible.len() {
        vstd::arithmetic::div_mod::lemma_fundamental_div_mod_converse(start + n, rows, 1, start);
    }
}

} // verus!
