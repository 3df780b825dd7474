//! The application: its state, and what changes it.

pub mod backend;
pub mod input;
pub mod laws;
pub mod run;
pub mod tokens;

use vstd::prelude::*;
use vstd::string::*;

use crate::config::SifConfig;
use crate::file_utils;
use crate::path;
use crate::path::{FilePath, PathView};
use crate::path_map::{PathMap, PathSet};
use crate::repomix_integration;
use crate::repomix_integration::{Repomix, RepomixView, StatusView};
use crate::text;
use crate::token_totals;
use crate::types::{AppState, Backend, FileTree, Focus, NodeView, StateView, TreeView};
use crate::ui::file_tree;
use crate::ui::UIState;

verus! {

/// Main app struct that manages the entire siff app.
/// Coordinates between the UI, the file tree and the backends. Points in time are nanoseconds on a
/// clock that never runs backwards.
#[derive(Debug)]
pub struct App {
    /// Current app state
    pub state: AppState,
    /// UI-specific state for rendering
    pub ui_state: UIState,
    /// Whether the app should quit
    pub should_quit: bool,
    /// Last time performed an update (for periodic tasks)
    pub last_update: u64,
    /// Current status message
    pub status_message: String,
    /// When the status message was last updated
    pub status_updated_at: u64,
    /// Whether backend is currently running
    pub is_processing: bool,
    /// Current token count for selected files
    pub token_count: usize,
    /// Persistent configuration for user preferences
    pub config: SifConfig,
    /// Repomix manager for isolated repomix execution, where repomix is the backend
    pub repomix: Option<Repomix>,
    /// Counter for generating unique request IDs
    pub next_request_id: u64,
    /// Current active request ID (for cancellation)
    pub current_request_id: Option<u64>,
    /// Last time token count was updated (for debouncing)
    pub last_token_update: u64,
    /// Track pending token calculations
    pub pending_token_calculations: PathSet,
    /// Whether in bulk token calculation (select all/unselect all)
    pub is_bulk_token_calculation: bool,
    /// Suppress status messages during nav
    pub suppress_status_messages: bool,
}

/// The mathematical value of an [`App`].
pub struct AppView {
    pub state: StateView,
    pub ui_state: UIState,
    pub should_quit: bool,
    pub last_update: u64,
    pub status_message: Seq<char>,
    pub status_updated_at: u64,
    pub is_processing: bool,
    pub token_count: usize,
    pub config: SifConfig,
    pub repomix: Option<RepomixView>,
    pub next_request_id: u64,
    pub current_request_id: Option<u64>,
    pub last_token_update: u64,
    pub pending: Set<PathView>,
    pub bulk: bool,
    pub suppress: bool,
}

impl View for App {
    type V = AppView;

    open spec fn view(&self) -> AppView {
        AppView {
            state: self.state@,
            ui_state: self.ui_state,
            should_quit: self.should_quit,
            last_update: self.last_update,
            status_message: self.status_message@,
            status_updated_at: self.status_updated_at,
            is_processing: self.is_processing,
            token_count: self.token_count,
            config: self.config,
            repomix: match self.repomix {
                Some(r) => Some(r@),
                None => None,
            },
            next_request_id: self.next_request_id,
            current_request_id: self.current_request_id,
            last_token_update: self.last_token_update,
            pending: self.pending_token_calculations@,
            bulk: self.is_bulk_token_calculation,
            suppress: self.suppress_status_messages,
        }
    }
}

/// The tree hangs together below its root. Kept out of sight of proofs that do not need it.
#[verifier::opaque]
pub open spec fn tree_linked(t: TreeView, root: PathView) -> bool {
    file_utils::linked(t, root)
}

/// What always holds of the app: the tree hangs together, the list on the screen is that of the
/// tree, the token sums are within range, the repomix backend has its manager, and a run under way
/// has a request, whose number has been given out.
pub open spec fn consistent(v: AppView) -> bool {
    &&& tree_linked(v.state.tree, v.state.root)
    &&& v.state.visible == file_utils::visible_tree(
        v.state.tree,
        v.state.root,
        v.state.order.len(),
    )
    &&& token_totals::fits(v.state.tree, v.state.order, v.state.counts)
    &&& v.state.options.backend is Repomix ==> v.repomix is Some
    &&& v.is_processing ==> v.current_request_id is Some
    &&& v.current_request_id matches Some(id) ==> id < v.next_request_id
}

impl App {
    /// The app is well formed: its maps are, and what always holds does hold.
    pub open spec fn wf(&self) -> bool {
        &&& self.state.wf()
        &&& self.pending_token_calculations.wf()
        &&& consistent(self@)
    }
}

/// The time that has passed between two points in time.
pub open spec fn elapsed(now: u64, since: u64) -> nat {
    if now >= since {
        (now - since) as nat
    } else {
        0
    }
}

/// The app with another status message.
pub open spec fn with_status(v: AppView, message: Seq<char>, now: u64) -> AppView {
    AppView { status_message: message, status_updated_at: now, ..v }
}

/// The repomix manager of a new app, whose download starts at once unless nothing is missing.
pub open spec fn started_repomix(cache_root: Option<PathView>, entry_exists: bool) -> RepomixView {
    RepomixView {
        cache_dir: repomix_integration::repomix_dir(cache_root),
        version: "1.11.1"@,
        entry: repomix_integration::main_entry(repomix_integration::repomix_dir(cache_root)),
        status: if entry_exists {
            StatusView::Ready
        } else {
            StatusView::Downloading("Initializing..."@)
        },
    }
}

/// A new app.
pub open spec fn new_app(
    root: PathView,
    tree: TreeView,
    order: Seq<PathView>,
    config: SifConfig,
    backend: Backend,
    cache_root: Option<PathView>,
    entry_exists: bool,
    now: u64,
) -> AppView {
    AppView {
        state: StateView {
            root,
            tree,
            order,
            visible: file_utils::visible_tree(tree, root, order.len()),
            selected_index: 0,
            options: config.options(backend),
            counts: Map::empty(),
            descendants: Map::empty(),
            descendants_dirty: true,
            status_message: Seq::empty(),
            is_processing: false,
            token_count: 0,
            focus: Focus::FileTree,
        },
        ui_state: UIState { file_tree_list_state: None },
        should_quit: false,
        last_update: now,
        status_message: Seq::empty(),
        status_updated_at: now,
        is_processing: false,
        token_count: 0,
        config,
        repomix: match backend {
            Backend::Repomix => Some(started_repomix(cache_root, entry_exists)),
            Backend::Yek => None,
        },
        next_request_id: 0,
        current_request_id: None,
        last_token_update: now,
        pending: Set::empty(),
        bulk: false,
        suppress: false,
    }
}

/// The app with its root directory expanded.
pub open spec fn root_expanded(v: AppView) -> AppView {
    let s = v.state;
    if s.tree.dom().contains(s.root) && s.tree[s.root].is_directory && !s.tree[s.root].is_expanded {
        let tree = s.tree.insert(s.root, NodeView { is_expanded: true, ..s.tree[s.root] });
        AppView {
            state: StateView {
                tree,
                visible: file_utils::visible_tree(tree, s.root, s.order.len()),
                ..s
            },
            ..v
        }
    } else {
        v
    }
}

/// The app with what the screen shows brought up to date.
pub open spec fn synced(v: AppView) -> AppView {
    AppView {
        state: StateView {
            status_message: v.status_message,
            is_processing: v.is_processing,
            token_count: v.token_count,
            descendants: if v.state.descendants_dirty {
                file_utils::descendants_map(v.state.tree)
            } else {
                v.state.descendants
            },
            descendants_dirty: false,
            ..v.state
        },
        ..v
    }
}

/// How long a status message stays.
pub open spec fn message_lifetime(v: AppView) -> nat {
    if v.bulk {
        5_000_000_000
    } else if text::contains_seq(v.status_message, "Calculating tokens"@) {
        1_000_000_000
    } else if text::occurs_at(v.status_message, "✓"@, 0) {
        2_000_000_000
    } else {
        3_000_000_000
    }
}

/// The app after the work that is done on every turn: an old status message goes away, unless a
/// backend is running, and messages are no longer suppressed two seconds after the last turn.
pub open spec fn periodically_updated(v: AppView, now: u64) -> AppView {
    AppView {
        status_message: if !v.is_processing && elapsed(now, v.status_updated_at) > message_lifetime(
            v,
        ) {
            Seq::empty()
        } else {
            v.status_message
        },
        suppress: v.suppress && elapsed(now, v.last_update) <= 2_000_000_000,
        ..v
    }
}

/// The time that has passed between two points in time.
pub(crate) fn elapsed_time(now: u64, since: u64) -> (r: u64)
    ensures
        r == elapsed(now, since),
{
    if now >= since {
        now - since
    } else {
        0
    }
}

impl App {
    /// Creates a new app instance, from a directory that has been scanned and from the user's
    /// configuration. `entry_exists` says whether repomix is installed already.
    pub fn new(
        root_path: FilePath,
        file_tree: FileTree,
        config: SifConfig,
        backend: Backend,
        cache_root: Option<&FilePath>,
        entry_exists: bool,
        now: u64,
    ) -> (r: Self)
        requires
            file_tree.wf(),
            file_utils::linked(file_tree@, root_path@),
        ensures
            r.wf(),
            r@ == new_app(
                root_path@,
                file_tree@,
                file_tree.keys(),
                config,
                backend,
                path::optional(cache_root),
                entry_exists,
                now,
            ),
    {
        let ghost root = root_path@;
        let ghost tree = file_tree@;
        let ghost order = file_tree.keys();
        let visible_paths = file_utils::flatten_visible_tree(&file_tree, &root_path);
        let state = AppState {
            root_path,
            file_tree,
            visible_paths,
            selected_index: 0,
            repomix_options: config.repomix_options(backend),
            individual_token_counts: PathMap::new(),
            dir_descendants_map: PathMap::new(),
            dir_descendants_dirty: true,
            status_message: String::new(),
            is_processing: false,
            token_count: 0,
            focus: Focus::FileTree,
        };
        let repomix = match backend {
            Backend::Repomix => {
                let mut manager = Repomix::new(cache_root, entry_exists);
                let _ = manager.start_background_download();
                Some(manager)
            },
            Backend::Yek => None,
        };
        let r = App {
            state,
            ui_state: UIState::default(),
            should_quit: false,
            last_update: now,
            status_message: String::new(),
            status_updated_at: now,
            is_processing: false,
            token_count: 0,
            config,
            repomix,
            next_request_id: 0,
            current_request_id: None,
            last_token_update: now,
            pending_token_calculations: PathSet::new(),
            is_bulk_token_calculation: false,
            suppress_status_messages: false,
        };
        proof {
            token_totals::lemma_empty_fits(tree, order);
            reveal(tree_linked);
            assert(r@.state.status_message =~= Seq::<char>::empty());
            assert(r@.status_message =~= Seq::<char>::empty());
        }
        r
    }

    /// Sets a status message and updates the timestamp.
    pub fn set_status_message(&mut self, message: String, now: u64)
        ensures
            final(self)@ == with_status(old(self)@, message@, now),
            old(self).wf() ==> final(self).wf(),
            final(self).state == old(self).state,
            final(self).pending_token_calculations == old(self).pending_token_calculations,
            final(self).repomix == old(self).repomix,
    {
        self.status_message = message;
        self.status_updated_at = now;
    }

    /// Clears the current status message.
    pub fn clear_status_message(&mut self)
        ensures
            final(self)@ == (AppView { status_message: Seq::empty(), ..old(self)@ }),
            old(self).wf() ==> final(self).wf(),
    {
        self.status_message = String::new();
        assert(self.status_message@ =~= Seq::<char>::empty());
    }

    /// Expands the root directory to show initial files.
    pub fn expand_root(&mut self)
        requires
            old(self).wf(),
        ensures
            final(self).wf(),
            final(self)@ == root_expanded(old(self)@),
    {
        let at: Option<usize> = self.state.file_tree.position(&self.state.root_path);
        if let Some(i) = at {
            let node = self.state.file_tree.value_at(i);
            if node.is_directory && !node.is_expanded {
                self.state.file_tree.set_expanded_at(i, true);
                self.state.visible_paths =
                file_utils::flatten_visible_tree(&self.state.file_tree, &self.state.root_path);
                proof {
                    old(self).state.file_tree.lemma_keys();
                    assert(self@.state.tree.dom() =~= old(self)@.state.tree.dom());
                    lemma_tree_kept(old(self)@.state, self@.state.tree);
                }
            }
        }
    }

    /// Syncs app state with UI state.
    pub fn sync_app_state(&mut self)
        requires
            old(self).wf(),
        ensures
            final(self).wf(),
            final(self)@ == synced(old(self)@),
    {
        self.state.status_message = self.status_message.clone();
        self.state.is_processing = self.is_processing;
        self.state.token_count = self.token_count;
        if self.state.dir_descendants_dirty {
            self.state.dir_descendants_map =
            file_utils::build_directories_with_descendants_map(&self.state.file_tree);
            self.state.dir_descendants_dirty = false;
        }
    }

    /// Performs periodic updates.
    pub fn periodic_update(&mut self, now: u64)
        requires
            old(self).wf(),
        ensures
            final(self).wf(),
            final(self)@ == periodically_updated(old(self)@, now),
    {
        if !self.status_message.as_str().is_empty() && !self.is_processing {
            let lifetime: u64 = if self.is_bulk_token_calculation {
                5_000_000_000
            } else if text::contains_text(self.status_message.as_str(), "Calculating tokens") {
                1_000_000_000
            } else if text::starts_with_text(self.status_message.as_str(), "✓") {
                2_000_000_000
            } else {
                3_000_000_000
            };
            if elapsed_time(now, self.status_updated_at) > lifetime {
                self.clear_status_message();
            }
        }
        if self.suppress_status_messages && elapsed_time(now, self.last_update) > 2_000_000_000 {
            self.suppress_status_messages = false;
        }
        assert(self.status_message@ =~= periodically_updated(old(self)@, now).status_message);
    }

    /// Updates the visible files list after expansion changes.
    pub fn update_visible_files(&mut self)
        requires
            old(self).wf(),
        ensures
            final(self).wf(),
            final(self)@ == (AppView { state: file_tree::refreshed(old(self)@.state), ..old(self)@ }),
    {
        file_tree::update_visible_files(&mut self.state);
    }

    /// Checks if a directory has any selected descendants
    pub fn has_selected_descendants(&self, dir_path: &FilePath) -> (r: bool)
        requires
            self.wf(),
        ensures
            r == file_utils::has_selected_below(self@.state.tree, dir_path@),
    {
        file_utils::has_selected_descendants(&self.state.file_tree, dir_path)
    }

    /// Takes the current repomix options over into the configuration that is to be saved.
    pub fn save_repomix_options(&mut self)
        requires
            old(self).wf(),
        ensures
            final(self).wf(),
            final(self)@ == (AppView {
                config: old(self)@.config.with_options(old(self)@.state.options),
                ..old(self)@
            }),
    {
        self.config.update_repomix_options(
            self.state.repomix_options.compress,
            self.state.repomix_options.remove_comments,
            self.state.repomix_options.file_tree,
            self.state.repomix_options.output_format,
        );
    }
}

/// Changing the expansion or the selection of nodes leaves the tree hanging together, and leaves
/// the token sums as they are.
pub(crate) proof fn lemma_tree_kept(s: StateView, tree: TreeView)
    requires
        tree_linked(s.tree, s.root),
        token_totals::fits(s.tree, s.order, s.counts),
        forall|p: PathView| s.order.contains(p) ==> #[trigger] s.tree.dom().contains(p),
        tree.dom() == s.tree.dom(),
        forall|p: PathView| #[trigger]
            s.tree.dom().contains(p) ==> tree[p] == (NodeView {
                is_selected: tree[p].is_selected,
                is_expanded: tree[p].is_expanded,
                ..s.tree[p]
            }),
    ensures
        tree_linked(tree, s.root),
        token_totals::fits(tree, s.order, s.counts),
{
    reveal(tree_linked);
    let t = s.tree;
    assert forall|p: PathView| t.dom().contains(p) implies tree[p].path == t[p].path
        && tree[p].children == t[p].children && tree[p].is_directory == t[p].is_directory
        && tree[p].depth == t[p].depth by {}
    assert(file_utils::linked(tree, s.root));
    assert forall|i: int| 0 <= i < s.order.len() implies token_totals::is_file(tree)(
        #[trigger] s.order[i],
    ) == token_totals::is_file(t)(s.order[i]) by {
        assert(s.order.contains(s.order[i]));
        assert(t.dom().contains(s.order[i]));
    }
    token_totals::lemma_filter_agree(
        s.order,
        token_totals::is_file(tree),
        token_totals::is_file(t),
    );
}

} // verus!
