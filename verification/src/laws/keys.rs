//! What each key and each click does.

use vstd::prelude::*;

use crate::app::backend;
use crate::app::input;
use crate::app::input::{ConfigOption, OutcomeView};
use crate::app::tokens;
use crate::app::AppView;
use crate::file_utils;
use crate::path::PathView;
use crate::text;
use crate::types::{NodeView, OutputFormat, StateView};
use crate::ui;
use crate::ui::file_tree;
use crate::ui::{KeyCode, KeyEvent, MouseEvent};

verus! {

/// With repomix, `c`, `m`, `t` and `f` change one option each: the first three switch theirs, the
/// last one goes on from plain text to Markdown, from there to XML, and from there to plain text.
/// The configuration that is to be saved says the same as the options then, and nothing else
/// changes.
pub proof fn lemma_option_keys(v: AppView, key: KeyEvent, now: u64)
    requires
        v.state.options.backend is Repomix,
        !(key.code == KeyCode::Char('c') && key.control),
        key.code == KeyCode::Char('c') || key.code == KeyCode::Char('m') || key.code
            == KeyCode::Char('t') || key.code == KeyCode::Char('f'),
    ensures
        ({
            let (w, outcome) = input::key_pressed(v, key, now);
            let o = v.state.options;
            let n = w.state.options;
            &&& n.compress == (o.compress != (key.code == KeyCode::Char('c')))
            &&& n.remove_comments == (o.remove_comments != (key.code == KeyCode::Char('m')))
            &&& n.file_tree == (o.file_tree != (key.code == KeyCode::Char('t')))
            &&& n.output_format == (if key.code == KeyCode::Char('f') {
                match o.output_format {
                    OutputFormat::PlainText => OutputFormat::Markdown,
                    OutputFormat::Markdown => OutputFormat::Xml,
                    OutputFormat::Xml => OutputFormat::PlainText,
                }
            } else {
                o.output_format
            })
            &&& n.backend == o.backend && n.output_file == o.output_file
            &&& w.config.compress == n.compress && w.config.remove_comments == n.remove_comments
                && w.config.include_file_tree == n.file_tree && w.config.output_format
                == n.output_format && w.config.default_backend == v.config.default_backend
            &&& w == (AppView {
                state: StateView { options: n, ..v.state },
                config: w.config,
                ..v
            })
            &&& outcome == OutcomeView::Save(
                if key.code == KeyCode::Char('c') {
                    ConfigOption::Compress
                } else if key.code == KeyCode::Char('m') {
                    ConfigOption::RemoveComments
                } else if key.code == KeyCode::Char('t') {
                    ConfigOption::FileTree
                } else {
                    ConfigOption::OutputFormat
                },
            )
        }),
{
}

/// Once an option has been saved, the app says what it is set to, and where it could not be saved,
/// why; nothing else changes.
pub proof fn lemma_saved_option_is_reported(
    v: AppView,
    option: ConfigOption,
    error: Option<Seq<char>>,
    now: u64,
)
    ensures
        ({
            let w = input::option_reported(v, option, error, now);
            let o = v.state.options;
            let switch = |on: bool|
                if on {
                    "enabled"@
                } else {
                    "disabled"@
                };
            &&& error matches Some(e) ==> w.status_message == "Error: config save error "@ + e
            &&& error is None ==> w.status_message == (match option {
                ConfigOption::Compress => "Compress: "@ + switch(o.compress),
                ConfigOption::RemoveComments => "Remove comments: "@ + switch(o.remove_comments),
                ConfigOption::FileTree => "File tree: "@ + switch(o.file_tree),
                ConfigOption::OutputFormat => "Output format: "@ + (match o.output_format {
                    OutputFormat::PlainText => "Plain Text"@,
                    OutputFormat::Markdown => "Markdown"@,
                    OutputFormat::Xml => "XML"@,
                }),
            })
            &&& w == (AppView {
                status_message: w.status_message,
                status_updated_at: now,
                ..v
            })
        }),
{
}

/// The `r` key asks for a run, with either backend.
pub proof fn lemma_run_key(v: AppView, control: bool, now: u64)
    ensures
        ({
            let key = KeyEvent { code: KeyCode::Char('r'), control };
            let (w, run) = backend::run_requested(v, now);
            input::key_pressed(v, key, now) == (w, OutcomeView::Run(run))
        }),
{
}

/// The `E` key expands every directory, selects nothing, and builds the list anew.
pub proof fn lemma_expand_all_key(v: AppView, control: bool, now: u64, p: PathView)
    ensures
        ({
            let key = KeyEvent { code: KeyCode::Char('E'), control };
            let (w, outcome) = input::key_pressed(v, key, now);
            let s = w.state;
            &&& s.tree.dom().contains(p) <==> v.state.tree.dom().contains(p)
            &&& v.state.tree.dom().contains(p) ==> s.tree[p] == (NodeView {
                is_expanded: v.state.tree[p].is_expanded || v.state.tree[p].is_directory,
                ..v.state.tree[p]
            })
            &&& s.visible == file_utils::visible_tree(s.tree, s.root, s.order.len())
            &&& w.status_message == "Expanded all directories"@
            &&& outcome == OutcomeView::Continue(Seq::empty())
            &&& w == (AppView {
                state: StateView { tree: s.tree, visible: s.visible, ..v.state },
                status_message: w.status_message,
                status_updated_at: now,
                ..v
            })
        }),
{
}

/// The `C` key collapses every directory but the root, selects nothing, and builds the list anew.
pub proof fn lemma_collapse_all_key(v: AppView, control: bool, now: u64, p: PathView)
    ensures
        ({
            let key = KeyEvent { code: KeyCode::Char('C'), control };
            let (w, outcome) = input::key_pressed(v, key, now);
            let s = w.state;
            &&& s.tree.dom().contains(p) <==> v.state.tree.dom().contains(p)
            &&& v.state.tree.dom().contains(p) ==> s.tree[p] == (NodeView {
                is_expanded: p == v.state.root || (v.state.tree[p].is_expanded
                    && !v.state.tree[p].is_directory),
                ..v.state.tree[p]
            })
            &&& s.visible == file_utils::visible_tree(s.tree, s.root, s.order.len())
            &&& w.status_message == "Collapsed all directories"@
            &&& outcome == OutcomeView::Continue(Seq::empty())
            &&& w == (AppView {
                state: StateView { tree: s.tree, visible: s.visible, ..v.state },
                status_message: w.status_message,
                status_updated_at: now,
                ..v
            })
        }),
{
}

/// The `A` key selects all that the list shows and unselects nothing; every count starts anew, as a
/// bulk calculation.
pub proof fn lemma_select_all_key(v: AppView, control: bool, now: u64, p: PathView)
    requires
        forall|i: int|
            0 <= i < v.state.visible.len() ==> v.state.tree.dom().contains(
                #[trigger] v.state.visible[i],
            ),
    ensures
        ({
            let key = KeyEvent { code: KeyCode::Char('A'), control };
            let u = input::all_selected(v, now);
            let s = u.state;
            let (w, files) = tokens::tokens_updated(u, now);
            &&& input::key_pressed(v, key, now) == (w, OutcomeView::Continue(files))
            &&& s.tree.dom().contains(p) <==> v.state.tree.dom().contains(p)
            &&& v.state.tree.dom().contains(p) ==> s.tree[p] == (NodeView {
                is_selected: v.state.tree[p].is_selected || v.state.visible.contains(p),
                ..v.state.tree[p]
            })
            &&& s.counts.dom() == Set::<PathView>::empty()
            &&& s.descendants_dirty
            &&& u.pending == Set::<PathView>::empty() && u.bulk && !u.suppress
            &&& u.status_message == "Selected all items - calculating tokens..."@
            &&& s == (StateView {
                tree: s.tree,
                counts: s.counts,
                descendants_dirty: true,
                ..v.state
            })
            &&& u == (AppView {
                state: s,
                pending: u.pending,
                bulk: true,
                suppress: false,
                status_message: u.status_message,
                status_updated_at: now,
                ..v
            })
        }),
{
    let u = input::all_selected(v, now);
    assert(u.state.counts.dom() =~= Set::<PathView>::empty());
}

/// The `U` key unselects everything, and forgets every count.
pub proof fn lemma_unselect_all_key(v: AppView, control: bool, now: u64, p: PathView)
    ensures
        ({
            let key = KeyEvent { code: KeyCode::Char('U'), control };
            let (w, outcome) = input::key_pressed(v, key, now);
            let s = w.state;
            &&& s.tree.dom().contains(p) <==> v.state.tree.dom().contains(p)
            &&& v.state.tree.dom().contains(p) ==> s.tree[p] == (NodeView {
                is_selected: false,
                ..v.state.tree[p]
            })
            &&& s.counts.dom() == Set::<PathView>::empty()
            &&& s.descendants_dirty
            &&& w.pending == Set::<PathView>::empty() && w.token_count == 0 && !w.bulk
                && !w.suppress
            &&& w.status_message == "Unselected all items"@
            &&& outcome == OutcomeView::Continue(Seq::empty())
            &&& s == (StateView {
                tree: s.tree,
                counts: s.counts,
                descendants_dirty: true,
                ..v.state
            })
            &&& w == (AppView {
                state: s,
                pending: w.pending,
                token_count: 0,
                bulk: false,
                suppress: false,
                status_message: w.status_message,
                status_updated_at: now,
                ..v
            })
        }),
{
    let key = KeyEvent { code: KeyCode::Char('U'), control };
    assert(input::key_pressed(v, key, now).0.state.counts.dom() =~= Set::<PathView>::empty());
}

/// The mark goes one row up or down and around the ends of the list; in an empty list it stays.
/// Nothing else of the state changes.
pub proof fn lemma_mark_moves_by_one(s: StateView)
    requires
        s.visible.len() <= usize::MAX,
    ensures
        ({
            let n = s.visible.len();
            let up = file_tree::moved_up(s).selected_index;
            let down = file_tree::moved_down(s).selected_index;
            &&& n == 0 ==> up == s.selected_index && down == s.selected_index
            &&& n > 0 && s.selected_index > 0 ==> up == s.selected_index - 1
            &&& n > 0 && s.selected_index == 0 ==> up == n - 1
            &&& n > 0 && s.selected_index + 1 < n ==> down == s.selected_index + 1
            &&& n > 0 && s.selected_index + 1 >= n ==> down == 0
            &&& file_tree::moved_up(s) == (StateView { selected_index: up, ..s })
            &&& file_tree::moved_down(s) == (StateView { selected_index: down, ..s })
        }),
{
}

/// Building the list anew keeps the mark where its row is still there, and else moves it to the
/// last row.
pub proof fn lemma_mark_stays_in_new_list(s: StateView)
    requires
        file_utils::visible_tree(s.tree, s.root, s.order.len()).len() <= usize::MAX,
    ensures
        ({
            let r = file_tree::refreshed(s);
            let n = file_utils::visible_tree(s.tree, s.root, s.order.len()).len();
            &&& r.visible == file_utils::visible_tree(s.tree, s.root, s.order.len())
            &&& s.selected_index < n ==> r.selected_index == s.selected_index
            &&& s.selected_index >= n && n > 0 ==> r.selected_index == n - 1
            &&& n == 0 ==> r.selected_index == 0
            &&& r == (StateView { visible: r.visible, selected_index: r.selected_index, ..s })
        }),
{
}

/// The right and left keys, `l` and `h`, expand and collapse the marked directory where it is not
/// so already, and it alone; the list is then built anew. On a file, and on a directory that is so
/// already, they change nothing.
pub proof fn lemma_sideways_keys(s: StateView, expanded: bool, p: PathView)
    ensures
        ({
            let r = file_tree::with_marked_expansion(s, expanded);
            let on_row = s.selected_index < s.visible.len();
            let marked = s.visible[s.selected_index as int];
            let acts = on_row && s.tree.dom().contains(marked) && s.tree[marked].is_directory
                && s.tree[marked].is_expanded != expanded;
            &&& !acts ==> r == s
            &&& acts ==> {
                &&& r.tree.dom().contains(p) <==> s.tree.dom().contains(p)
                &&& r.tree[marked] == (NodeView { is_expanded: expanded, ..s.tree[marked] })
                &&& p != marked && s.tree.dom().contains(p) ==> r.tree[p] == s.tree[p]
                &&& r == file_tree::refreshed(StateView { tree: r.tree, ..s })
            }
        }),
{
    let marked = s.visible[s.selected_index as int];
    let r = file_tree::with_marked_expansion(s, expanded);
    if s.selected_index < s.visible.len() && s.tree.dom().contains(marked)
        && s.tree[marked].is_directory && s.tree[marked].is_expanded != expanded {
        assert(r.tree == s.tree.insert(
            marked,
            NodeView { is_expanded: expanded, ..s.tree[marked] },
        ));
    }
}

/// In the file tree the arrows and the letters `k`, `j`, `h` and `l` move and fold, the space key
/// toggles the marked node, and no other key has a meaning.
pub proof fn lemma_tree_keys(s: StateView, code: KeyCode, control: bool)
    ensures
        ({
            let (r, handled) = ui::input(s, KeyEvent { code, control });
            let up = code is Up || code == KeyCode::Char('k');
            let down = code is Down || code == KeyCode::Char('j');
            let left = code is Left || code == KeyCode::Char('h');
            let right = code is Right || code == KeyCode::Char('l');
            let space = code == KeyCode::Char(' ');
            &&& handled <==> up || down || left || right || space
            &&& !handled ==> r == s
            &&& up ==> r == file_tree::moved_up(s)
            &&& down ==> r == file_tree::moved_down(s)
            &&& left ==> r == file_tree::with_marked_expansion(s, false)
            &&& right ==> r == file_tree::with_marked_expansion(s, true)
            &&& space && s.selected_index < s.visible.len() && s.tree.dom().contains(
                s.visible[s.selected_index as int],
            ) ==> r == (StateView {
                tree: file_utils::with_toggled_selection(
                    s.tree,
                    s.visible[s.selected_index as int],
                ),
                ..s
            })
            &&& space && s.selected_index >= s.visible.len() ==> r == s
        }),
{
}

/// A key that is left to the file tree does its work there; after the space key the counts are
/// brought up to date, after a key that folds only in a bulk calculation, and after a key that moves
/// messages are held back and one on a calculation goes, unless it is a bulk calculation.
pub proof fn lemma_tree_key_follows_up(v: AppView, key: KeyEvent, now: u64)
    requires
        key.code is Up || key.code is Down || key.code is Left || key.code is Right || key.code
            == KeyCode::Char('k') || key.code == KeyCode::Char('j') || key.code == KeyCode::Char('h')
            || key.code == KeyCode::Char('l') || key.code == KeyCode::Char(' '),
    ensures
        ({
            let (w, outcome) = input::key_pressed(v, key, now);
            let moved = AppView { state: ui::input(v.state, key).0, ..v };
            let folds = key.code is Left || key.code is Right || key.code == KeyCode::Char('h')
                || key.code == KeyCode::Char('l');
            let space = key.code == KeyCode::Char(' ');
            let updated = tokens::tokens_updated_debounced(
                if space {
                    AppView {
                        state: StateView { descendants_dirty: true, ..moved.state },
                        suppress: false,
                        ..moved
                    }
                } else {
                    moved
                },
                now,
            );
            &&& space || (folds && v.bulk) ==> w == updated.0 && outcome == OutcomeView::Continue(
                updated.1,
            )
            &&& folds && !v.bulk ==> w == moved && outcome == OutcomeView::Continue(Seq::empty())
            &&& !space && !folds ==> {
                &&& w.state == moved.state
                &&& w.suppress
                &&& w.status_message == (if text::contains_seq(
                    v.status_message,
                    "Calculating tokens"@,
                ) && !v.bulk {
                    Seq::empty()
                } else {
                    v.status_message
                })
                &&& w == (AppView {
                    state: w.state,
                    suppress: true,
                    status_message: w.status_message,
                    ..v
                })
                &&& outcome == OutcomeView::Continue(Seq::empty())
            }
        }),
{
    assert(input::option_of(key.code, v.state.options.backend) is None);
    let (w, files) = input::ui_key(v, key, now);
    assert(input::key_pressed(v, key, now) == (w, OutcomeView::Continue(files)));
}

/// Keys without a meaning change nothing; with yek the option keys are among them.
pub proof fn lemma_other_keys(v: AppView, key: KeyEvent, now: u64)
    requires
        key.code is Other || (key.code matches KeyCode::Char(c) && c != 'q' && c != 'r' && c != 'E'
            && c != 'C' && c != 'A' && c != 'U' && c != ' ' && c != 'h' && c != 'j' && c != 'k' && c
            != 'l' && (v.state.options.backend is Yek || (c != 'm' && c != 'f' && c != 't' && c
            != 'c')) && !(c == 'c' && key.control)),
    ensures
        input::key_pressed(v, key, now) == (v, OutcomeView::Continue(Seq::empty())),
{
}

/// The list of files begins on the sixth row of the screen below the options of repomix, and on the
/// third with yek; a click on one of its rows is a click on that item, and any other is on none.
pub proof fn lemma_click_hits_row(s: StateView, i: usize, row: u16)
    ensures
        ({
            let first: int = if s.options.backend is Repomix {
                5
            } else {
                2
            };
            &&& i < s.visible.len() && row == first + i ==> input::clicked_index(s, row) == Some(i)
            &&& input::clicked_index(s, row) == Some(i) ==> i < s.visible.len() && row == first + i
            &&& row < first || row - first >= s.visible.len() ==> input::clicked_index(s, row)
                is None
        }),
{
}

/// A click marks its row. On the icon of a directory, the five columns from its indent on, it
/// expands or collapses the directory; anywhere else it toggles the selection, as the space key
/// does. The counts are then brought up to date.
pub proof fn lemma_click_acts_on_item(v: AppView, column: u16, row: u16, now: u64, i: usize)
    requires
        input::clicked_index(v.state, row) == Some(i),
        v.state.tree.dom().contains(v.state.visible[i as int]),
    ensures
        ({
            let p = v.state.visible[i as int];
            let n = v.state.tree[p];
            let indent: int = if n.depth == 0 {
                0
            } else {
                2 * (n.depth - 1)
            };
            let marked = StateView { selected_index: i, ..v.state };
            let state = if n.is_directory && indent <= column && column <= indent + 4 {
                file_tree::refreshed(
                    StateView {
                        tree: v.state.tree.insert(
                            p,
                            NodeView { is_expanded: !n.is_expanded, ..n },
                        ),
                        ..marked
                    },
                )
            } else {
                StateView {
                    tree: file_utils::with_toggled_selection(v.state.tree, p),
                    descendants_dirty: true,
                    ..marked
                }
            };
            input::clicked(v, column, row, now) == tokens::tokens_updated_debounced(
                AppView { state, ..v },
                now,
            )
        }),
{
}

/// A click outside of the list changes nothing; the wheel moves the mark by one row; and other
/// events of the mouse have no meaning.
pub proof fn lemma_mouse(v: AppView, mouse: MouseEvent, now: u64)
    ensures
        ({
            let (w, files) = input::mouse_used(v, mouse, now);
            &&& mouse.kind is LeftDown ==> (w, files) == input::clicked(
                v,
                mouse.column,
                mouse.row,
                now,
            )
            &&& mouse.kind is LeftDown && input::clicked_index(v.state, mouse.row) is None ==> w
                == v && files.len() == 0
            &&& mouse.kind is ScrollUp ==> w == (AppView {
                state: file_tree::moved_up(v.state),
                ..v
            }) && files.len() == 0
            &&& mouse.kind is ScrollDown ==> w == (AppView {
                state: file_tree::moved_down(v.state),
                ..v
            }) && files.len() == 0
            &&& mouse.kind is Other ==> w == v && files.len() == 0
        }),
{
}

/// The file tree itself takes the same keys, and `r` has no meaning there either.
pub proof fn lemma_tree_takes_keys(s: StateView, code: KeyCode, control: bool)
    ensures
        file_tree::file_tree_input(s, code) == ui::input(s, KeyEvent { code, control }),
{
}

/// Toggling a path that is not in the tree does nothing, and any other is toggled with all below it.
pub proof fn lemma_toggle_of_path(s: StateView, p: PathView)
    ensures
        !s.tree.dom().contains(p) ==> file_tree::with_toggled_at(s, p) == s,
        s.tree.dom().contains(p) ==> file_tree::with_toggled_at(s, p) == (StateView {
            tree: file_utils::with_toggled_selection(s.tree, p),
            ..s
        }),
{
}

} // verus!
