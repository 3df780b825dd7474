//! What holds of the app as a whole.

use vstd::prelude::*;

use crate::app;
use crate::app::backend;
use crate::app::backend::RequestView;
use crate::app::input;
use crate::app::input::{ConfigOption, OutcomeView};
use crate::app::run;
use crate::app::run::TurnView;
use crate::app::tokens;
use crate::app::{App, AppView};
use crate::file_utils;
use crate::path::PathView;
use crate::token_totals;
use crate::tree_laws;
use crate::types::{NodeView, RepomixOptions, StateView, TreeView};
use crate::ui;
use crate::ui::file_tree;
use crate::ui::{KeyCode, KeyEvent, MouseEvent};

verus! {

/// The order names each node of the tree once.
pub open spec fn ordered(v: AppView) -> bool {
    &&& v.state.order.no_duplicates()
    &&& v.state.tree.dom() == v.state.order.to_set()
}

/// In a well formed app the order names each node of the tree once.
pub proof fn lemma_ordered(a: &App)
    requires
        a.wf(),
    ensures
        ordered(a@),
{
    a.state.file_tree.lemma_keys();
}

proof fn lemma_size(v: AppView)
    requires
        ordered(v),
    ensures
        v.state.tree.dom().finite(),
        v.state.tree.dom().len() == v.state.order.len(),
        forall|p: PathView| #[trigger]
            v.state.tree.dom().contains(p) <==> v.state.order.contains(p),
{
    v.state.order.unique_seq_to_set();
    vstd::seq_lib::seq_to_set_is_finite(v.state.order);
}

/// The list on the screen shows exactly the nodes below the root all of whose directories are
/// expanded, and shows none of them twice.
pub proof fn lemma_list_shows_expanded(v: AppView, p: PathView)
    requires
        app::consistent(v),
        ordered(v),
        v.state.tree[v.state.root].is_directory,
    ensures
        v.state.visible.contains(p) <==> v.state.tree.dom().contains(p) && p != v.state.root
            && tree_laws::way_expanded(v.state.tree, p, v.state.root.len()),
        v.state.visible.no_duplicates(),
{
    reveal(app::tree_linked);
    lemma_size(v);
    let s = v.state;
    tree_laws::lemma_visible_iff_way_expanded(s.tree, s.root, s.order.len(), p);
    tree_laws::lemma_visible_no_duplicates(s.tree, s.root, s.order.len());
}

/// The directory on the way to a node is a directory of the tree.
proof fn lemma_way_is_directory(t: TreeView, root: PathView, p: PathView, k: int)
    requires
        file_utils::linked(t, root),
        t.dom().contains(p),
        root.len() <= k < p.len(),
    ensures
        t.dom().contains(p.take(k)),
        t[p.take(k)].is_directory,
{
    tree_laws::lemma_way_in_tree(t, root, p, k);
    tree_laws::lemma_way_in_tree(t, root, p, k + 1);
    let c = p.take(k + 1);
    assert(c.len() > root.len());
    assert(c != root);
    assert(c.drop_last() =~= p.take(k));
}

/// Once all directories are expanded, the list shows everything but the root.
pub proof fn lemma_expand_all_shows_everything(v: AppView, p: PathView)
    requires
        app::consistent(v),
        ordered(v),
        v.state.tree[v.state.root].is_directory,
    ensures
        input::with_tree(v, file_utils::with_expansion(v.state.tree, true)).state.visible.contains(
            p,
        ) <==> v.state.tree.dom().contains(p) && p != v.state.root,
{
    let s = v.state;
    let tree = file_utils::with_expansion(s.tree, true);
    lemma_size(v);
    assert(tree.dom() =~= s.tree.dom());
    app::lemma_tree_kept(s, tree);
    reveal(app::tree_linked);
    tree_laws::lemma_visible_iff_way_expanded(tree, s.root, s.order.len(), p);
    if tree.dom().contains(p) && p != s.root {
        assert forall|k: int| s.root.len() <= k < p.len() implies (#[trigger] tree[p.take(
            k,
        )]).is_expanded by {
            lemma_way_is_directory(s.tree, s.root, p, k);
        }
    }
}

/// Once all directories are collapsed, the list shows what the root holds and nothing else.
pub proof fn lemma_collapse_all_shows_top_level(v: AppView, p: PathView)
    requires
        app::consistent(v),
        ordered(v),
        v.state.tree[v.state.root].is_directory,
    ensures
        input::with_tree(
            v,
            input::collapsed_tree(v.state.tree, v.state.root),
        ).state.visible.contains(p) <==> v.state.tree[v.state.root].children.contains(p),
{
    let s = v.state;
    let root = s.root;
    let tree = input::collapsed_tree(s.tree, root);
    lemma_size(v);
    reveal(app::tree_linked);
    assert(tree.dom() =~= s.tree.dom());
    app::lemma_tree_kept(s, tree);
    tree_laws::lemma_visible_iff_way_expanded(tree, root, s.order.len(), p);
    if s.tree[root].children.contains(p) {
        let i = s.tree[root].children.index_of(p);
        assert(s.tree[root].children[i] == p);
        assert forall|k: int| root.len() <= k < p.len() implies (#[trigger] tree[p.take(
            k,
        )]).is_expanded by {
            assert(p.take(k) =~= root);
        }
    }
    if tree.dom().contains(p) && p != root && tree_laws::way_expanded(tree, p, root.len()) {
        assert(p.len() > root.len());
        tree_laws::lemma_way_in_tree(s.tree, root, p, root.len() as int);
        if p.len() > root.len() + 1 {
            let k = root.len() as int + 1;
            lemma_way_is_directory(s.tree, root, p, k);
            assert(p.take(k).len() == k);
            assert(p.take(k) != root);
            assert(!tree[p.take(k)].is_expanded);
        }
        assert(p.drop_last() =~= p.take(root.len() as int));
    }
}

/// Whether a key only moves in the list, or expands or collapses a directory.
pub open spec fn is_navigation(code: KeyCode) -> bool {
    match code {
        KeyCode::Up | KeyCode::Down | KeyCode::Left | KeyCode::Right => true,
        KeyCode::Char(c) => c == 'j' || c == 'k' || c == 'h' || c == 'l',
        _ => false,
    }
}

/// What follows a key in the file tree leaves the tree alone.
proof fn lemma_after_input_keeps_tree(v: AppView, code: KeyCode, now: u64)
    ensures
        input::after_input(v, code, now).0.state.tree == v.state.tree,
{
}

/// A key that moves in the list selects and unselects nothing.
proof fn lemma_input_keeps_selection(s: StateView, key: KeyEvent, p: PathView)
    requires
        is_navigation(key.code),
        s.tree.dom().contains(p),
    ensures
        ({
            let (r, _) = ui::input(s, key);
            &&& r.tree.dom().contains(p)
            &&& r.tree[p].is_selected == s.tree[p].is_selected
            &&& r.tree[p].is_directory == s.tree[p].is_directory
        }),
{
}

/// Moving in the list selects and unselects nothing.
pub proof fn lemma_navigation_keeps_selection(v: AppView, key: KeyEvent, now: u64, p: PathView)
    requires
        is_navigation(key.code),
        v.state.tree.dom().contains(p),
    ensures
        ({
            let (w, _) = input::key_pressed(v, key, now);
            &&& w.state.tree.dom().contains(p)
            &&& w.state.tree[p].is_selected == v.state.tree[p].is_selected
            &&& w.state.tree[p].is_directory == v.state.tree[p].is_directory
        }),
{
    let (state, _) = ui::input(v.state, key);
    lemma_input_keeps_selection(v.state, key, p);
    lemma_after_input_keeps_tree(AppView { state, ..v }, key.code, now);
    assert(input::key_pressed(v, key, now).0 == input::ui_key(v, key, now).0);
}

/// The space key toggles the marked node, gives its new state to all below it, and changes no
/// other node.
pub proof fn lemma_space_toggles_marked(v: AppView, now: u64, p: PathView)
    requires
        v.state.selected_index < v.state.visible.len(),
        v.state.tree.dom().contains(v.state.visible[v.state.selected_index as int]),
        v.state.tree.dom().contains(p),
    ensures
        ({
            let key = KeyEvent { code: KeyCode::Char(' '), control: false };
            let marked = v.state.visible[v.state.selected_index as int];
            let (w, _) = input::key_pressed(v, key, now);
            w.state.tree[p] == (if marked.is_prefix_of(p) {
                NodeView { is_selected: !v.state.tree[marked].is_selected, ..v.state.tree[p] }
            } else {
                v.state.tree[p]
            })
        }),
{
}

/// Selecting everything selects every path of the list.
pub proof fn lemma_select_all_selects_list(v: AppView, now: u64, i: int)
    requires
        app::consistent(v),
        0 <= i < v.state.visible.len(),
    ensures
        ({
            let key = KeyEvent { code: KeyCode::Char('A'), control: false };
            let (w, _) = input::key_pressed(v, key, now);
            w.state.tree[v.state.visible[i]].is_selected
        }),
{
    input::lemma_visible_known(v);
    assert(v.state.visible.contains(v.state.visible[i]));
}

/// Unselecting everything leaves no file selected, no count and no tokens.
pub proof fn lemma_unselect_all_clears(v: AppView, now: u64)
    requires
        ordered(v),
    ensures
        ({
            let key = KeyEvent { code: KeyCode::Char('U'), control: false };
            let (w, _) = input::key_pressed(v, key, now);
            &&& tokens::chosen(w) == Seq::<PathView>::empty()
            &&& w.token_count == 0
            &&& w.state.counts == Map::<PathView, Option<usize>>::empty()
            &&& w.pending == Set::<PathView>::empty()
        }),
{
    lemma_size(v);
    assert forall|i: int| 0 <= i < v.state.order.len() implies v.state.tree.dom().contains(
        #[trigger] v.state.order[i],
    ) by {
        assert(v.state.order.contains(v.state.order[i]));
    }
    tree_laws::lemma_unselect_all(v.state.tree, v.state.order, Seq::empty());
}

/// After an update the token count is the sum of the known counts of the selected files.
pub proof fn lemma_token_count_is_sum(v: AppView, now: u64)
    requires
        app::consistent(v),
        ordered(v),
    ensures
        ({
            let (w, _) = tokens::tokens_updated(v, now);
            &&& tokens::chosen(w) == tokens::chosen(v)
            &&& w.token_count == token_totals::total(w.state.counts, tokens::chosen(w))
        }),
{
    let s = v.state;
    lemma_size(v);
    token_totals::lemma_updated_total(s.tree, s.order, s.counts);
    token_totals::lemma_selected_total(s.tree, s.order, s.counts);
}

/// After results have come in the token count is the sum of the known counts of the selected
/// files.
pub proof fn lemma_token_count_follows_results(
    v: AppView,
    results: Seq<(PathView, usize)>,
    now: u64,
)
    requires
        ordered(v),
        results.len() > 0,
        token_totals::fits(
            v.state.tree,
            v.state.order,
            tokens::with_results(v.state.counts, results),
        ),
    ensures
        ({
            let w = tokens::results_processed(v, results, now);
            w.token_count == token_totals::total(w.state.counts, tokens::chosen(w))
        }),
{
    let s = v.state;
    let counts = tokens::with_results(s.counts, results);
    lemma_size(v);
    token_totals::lemma_selected_total(s.tree, s.order, counts);
    token_totals::lemma_dir_totals_keep_files(s.tree, s.order, counts);
}

/// An update that follows another one within 300 milliseconds does nothing.
pub proof fn lemma_updates_are_debounced(v: AppView, now: u64, later: u64)
    requires
        app::elapsed(now, v.last_token_update) >= 300_000_000,
        now <= later < now + 300_000_000,
    ensures
        ({
            let (w, _) = tokens::tokens_updated_debounced(v, now);
            tokens::tokens_updated_debounced(w, later) == (w, Seq::<PathView>::empty())
        }),
{
}

/// Only `q`, escape and control-c end the app, and they change nothing.
pub proof fn lemma_quit_keys(v: AppView, key: KeyEvent, now: u64)
    ensures
        input::key_pressed(v, key, now).1 is Quit <==> key.code == KeyCode::Char('q') || key.code
            == KeyCode::Esc || (key.code == KeyCode::Char('c') && key.control),
        input::key_pressed(v, key, now).1 is Quit ==> input::key_pressed(v, key, now).0 == v,
{
}

/// Changing a switch twice, or the format three times, gives the options back.
pub proof fn lemma_options_come_back(o: RepomixOptions, option: ConfigOption)
    ensures
        option !is OutputFormat ==> input::changed_options(
            input::changed_options(o, option),
            option,
        ) == o,
        option is OutputFormat ==> input::changed_options(
            input::changed_options(input::changed_options(o, option), option),
            option,
        ) == o,
{
}

/// With the yek backend no key changes an option.
pub proof fn lemma_yek_has_no_options(v: AppView, key: KeyEvent, now: u64)
    requires
        v.state.options.backend is Yek,
    ensures
        !(input::key_pressed(v, key, now).1 is Save),
        input::key_pressed(v, key, now).0.state.options == v.state.options,
{
}

/// What the main loop does to an app.
pub enum Happening {
    Key(KeyEvent),
    Mouse(MouseEvent),
    Turn(TurnView),
    OptionSaved(ConfigOption, Option<Seq<char>>),
    RunDropped,
    Update,
    RootExpanded,
    Synced,
}

/// The app after something has happened to it, and the request that goes out, where one does.
pub open spec fn happened(v: AppView, what: Happening, now: u64) -> (AppView, Option<RequestView>) {
    match what {
        Happening::Key(key) => {
            let (w, outcome) = input::key_pressed(v, key, now);
            (
                w,
                match outcome {
                    OutcomeView::Run(run) => run.request,
                    _ => None,
                },
            )
        },
        Happening::Mouse(mouse) => (input::mouse_used(v, mouse, now).0, None),
        Happening::Turn(event) => (run::turn(v, event, now).0, None),
        Happening::OptionSaved(option, error) => (
            input::option_reported(v, option, error, now),
            None,
        ),
        Happening::RunDropped => (backend::run_dropped(v, now), None),
        Happening::Update => (tokens::tokens_updated(v, now).0, None),
        Happening::RootExpanded => (app::root_expanded(v), None),
        Happening::Synced => (app::synced(v), None),
    }
}

/// The app after all that has happened to it, each thing with its time, and the requests that have
/// gone out, in order.
pub open spec fn after_all(v: AppView, history: Seq<(Happening, u64)>) -> (
    AppView,
    Seq<RequestView>,
)
    decreases history.len(),
{
    if history.len() == 0 {
        (v, Seq::empty())
    } else {
        let (before, sent) = after_all(v, history.drop_last());
        let (w, request) = happened(before, history.last().0, history.last().1);
        (
            w,
            match request {
                Some(r) => sent.push(r),
                None => sent,
            },
        )
    }
}

proof fn lemma_update_keeps_number(v: AppView, now: u64)
    ensures
        tokens::tokens_updated(v, now).0.next_request_id == v.next_request_id,
        tokens::tokens_updated_debounced(v, now).0.next_request_id == v.next_request_id,
{
}

proof fn lemma_key_number(v: AppView, key: KeyEvent, now: u64)
    requires
        v.next_request_id < u64::MAX,
    ensures
        match happened(v, Happening::Key(key), now) {
            (w, Some(r)) => r.request_id == v.next_request_id && w.next_request_id
                == v.next_request_id + 1,
            (w, None) => w.next_request_id == v.next_request_id,
        },
{
    if key.code == KeyCode::Char('r') {
        backend::lemma_run_starts(v, now);
    } else if key.code == KeyCode::Char('A') {
        lemma_update_keeps_number(input::all_selected(v, now), now);
    } else {
        let (state, _) = ui::input(v.state, key);
        let moved = AppView { state, ..v };
        lemma_update_keeps_number(moved, now);
        lemma_update_keeps_number(
            AppView {
                state: StateView { descendants_dirty: true, ..moved.state },
                suppress: false,
                ..moved
            },
            now,
        );
        assert(input::ui_key(v, key, now).0.next_request_id == v.next_request_id);
    }
}

proof fn lemma_step_number(v: AppView, what: Happening, now: u64)
    requires
        v.next_request_id < u64::MAX,
    ensures
        match happened(v, what, now) {
            (w, Some(r)) => r.request_id == v.next_request_id && w.next_request_id
                == v.next_request_id + 1,
            (w, None) => w.next_request_id == v.next_request_id,
        },
{
    match what {
        Happening::Key(key) => {
            lemma_key_number(v, key, now);
        },
        Happening::Mouse(mouse) => {
            lemma_mouse_number(v, mouse, now);
        },
        Happening::Turn(event) => {
            lemma_turn_number(v, event, now);
        },
        _ => {},
    }
}

proof fn lemma_mouse_number(v: AppView, mouse: MouseEvent, now: u64)
    ensures
        input::mouse_used(v, mouse, now).0.next_request_id == v.next_request_id,
{
    if let Some(i) = input::clicked_index(v.state, mouse.row) {
        lemma_update_keeps_number(
            AppView { state: input::item_clicked(v.state, i, mouse.column), ..v },
            now,
        );
    }
}

proof fn lemma_turn_number(v: AppView, event: TurnView, now: u64)
    ensures
        run::turn(v, event, now).0.next_request_id == v.next_request_id,
{
}

/// No two requests of an app share a number: whatever happens to the app, the numbers of its
/// requests grow from each request to the next.
pub proof fn lemma_requests_are_unique(v: AppView, history: Seq<(Happening, u64)>)
    requires
        v.next_request_id + history.len() <= u64::MAX,
    ensures
        ({
            let (w, sent) = after_all(v, history);
            &&& v.next_request_id <= w.next_request_id <= v.next_request_id + history.len()
            &&& forall|i: int|
                0 <= i < sent.len() ==> v.next_request_id <= (#[trigger] sent[i]).request_id
                    < w.next_request_id
            &&& forall|i: int, j: int|
                0 <= i < j < sent.len() ==> (#[trigger] sent[i]).request_id < (
                #[trigger] sent[j]).request_id
        }),
    decreases history.len(),
{
    if history.len() > 0 {
        let rest = history.drop_last();
        lemma_requests_are_unique(v, rest);
        lemma_step_number(after_all(v, rest).0, history.last().0, history.last().1);
    }
}

} // verus!
