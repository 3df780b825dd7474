//! What a session does: its start, its token counts, its runs, and the turns of its main loop.

use vstd::prelude::*;

use crate::app;
use crate::app::backend;
use crate::app::backend::RunView;
use crate::app::run;
use crate::app::run::{TurnAction, TurnView};
use crate::app::tokens;
use crate::app::AppView;
use crate::config::SifConfig;
use crate::file_utils;
use crate::laws::lists;
use crate::laws::totals;
use crate::path::PathView;
use crate::repomix_integration;
use crate::repomix_integration::{RepomixView, StatusView};
use crate::text;
use crate::token_totals;
use crate::token_totals::CountsView;
use crate::types::{Backend, BackendResult, NodeView, StateView, TreeView};

verus! {

/// Whether the order of an app names each node of its tree once.
pub open spec fn in_order(v: AppView) -> bool {
    &&& v.state.order.no_duplicates()
    &&& forall|p: PathView| #[trigger]
        v.state.tree.dom().contains(p) <==> v.state.order.contains(p)
}

/// A new session shows the scanned tree from its first row, with the settings of the configuration
/// and the backend that was asked for. Nothing is counted, pending, running or said yet; only
/// repomix has a manager, which downloads what is missing.
pub proof fn lemma_new_session(
    root: PathView,
    tree: TreeView,
    order: Seq<PathView>,
    config: SifConfig,
    backend: Backend,
    cache_root: Option<PathView>,
    entry_exists: bool,
    now: u64,
)
    ensures
        ({
            let v = app::new_app(
                root,
                tree,
                order,
                config,
                backend,
                cache_root,
                entry_exists,
                now,
            );
            let s = v.state;
            &&& s.root == root && s.tree == tree && s.order == order
            &&& s.visible == file_utils::visible_tree(tree, root, order.len())
            &&& s.selected_index == 0 && s.descendants_dirty
            &&& s.counts.dom() == Set::<PathView>::empty()
            &&& s.options.backend == backend && s.options.compress == config.compress
                && s.options.remove_comments == config.remove_comments && s.options.file_tree
                == config.include_file_tree && s.options.output_format == config.output_format
            &&& v.config == config
            &&& v.pending == Set::<PathView>::empty() && v.token_count == 0
            &&& !v.is_processing && !v.should_quit && !v.bulk && !v.suppress
            &&& v.current_request_id is None && v.next_request_id == 0
            &&& v.status_message.len() == 0
            &&& v.last_update == now && v.status_updated_at == now && v.last_token_update == now
            &&& v.repomix is Some <==> backend is Repomix
            &&& backend is Repomix && entry_exists ==> v.repomix->0.status is Ready
            &&& backend is Repomix && !entry_exists ==> v.repomix->0.status is Downloading
            &&& v.repomix matches Some(m) ==> m.version == "1.11.1"@ && m.cache_dir
                == repomix_integration::repomix_dir(cache_root) && m.entry
                == repomix_integration::main_entry(m.cache_dir)
        }),
{
    assert(Map::<PathView, Option<usize>>::empty().dom() =~= Set::<PathView>::empty());
}

/// Opening the root directory expands it, and it alone; the list then shows what it holds.
pub proof fn lemma_root_opens(v: AppView, p: PathView)
    requires
        v.state.tree.dom().contains(v.state.root),
        v.state.tree[v.state.root].is_directory,
        v.state.visible == file_utils::visible_tree(
            v.state.tree,
            v.state.root,
            v.state.order.len(),
        ),
    ensures
        ({
            let w = app::root_expanded(v);
            let s = w.state;
            &&& s.tree[v.state.root].is_expanded
            &&& s.tree[v.state.root] == (NodeView {
                is_expanded: true,
                ..v.state.tree[v.state.root]
            })
            &&& p != v.state.root ==> s.tree.dom().contains(p) == v.state.tree.dom().contains(p)
                && s.tree[p] == v.state.tree[p]
            &&& s.visible == file_utils::visible_tree(s.tree, s.root, s.order.len())
            &&& w == (AppView {
                state: StateView { tree: s.tree, visible: s.visible, ..v.state },
                ..v
            })
        }),
{
}

/// Before the screen is drawn, what it shows is taken over from the app; the directories with
/// something selected below them are looked for anew where the selection has changed.
pub proof fn lemma_screen_follows_app(v: AppView)
    ensures
        ({
            let w = app::synced(v);
            let s = w.state;
            &&& s.status_message == v.status_message
            &&& s.token_count == v.token_count
            &&& s.is_processing == v.is_processing
            &&& !s.descendants_dirty
            &&& v.state.descendants_dirty ==> s.descendants == file_utils::descendants_map(
                v.state.tree,
            )
            &&& !v.state.descendants_dirty ==> s.descendants == v.state.descendants
            &&& s.tree == v.state.tree && s.visible == v.state.visible && s.selected_index
                == v.state.selected_index && s.counts == v.state.counts && s.options
                == v.state.options && s.order == v.state.order && s.root == v.state.root && s.focus
                == v.state.focus
            &&& w == (AppView { state: s, ..v })
        }),
{
}

/// A status message stays for its time: five seconds in a bulk calculation, one second where it
/// tells of a calculation, two where it reports one that is done, and three otherwise. Then it
/// goes, unless a backend is running. Two seconds after the last turn messages are no longer held
/// back. Nothing else changes.
pub proof fn lemma_message_has_its_time(v: AppView, now: u64)
    requires
        now >= v.status_updated_at,
        now >= v.last_update,
    ensures
        ({
            let w = app::periodically_updated(v, now);
            let age = now - v.status_updated_at;
            let time: int = if v.bulk {
                5_000_000_000
            } else if text::contains_seq(v.status_message, "Calculating tokens"@) {
                1_000_000_000
            } else if "✓"@.is_prefix_of(v.status_message) {
                2_000_000_000
            } else {
                3_000_000_000
            };
            &&& v.is_processing || age <= time ==> w.status_message == v.status_message
            &&& !v.is_processing && age > time ==> w.status_message.len() == 0
            &&& w.suppress <==> v.suppress && now - v.last_update <= 2_000_000_000
            &&& w == (AppView { status_message: w.status_message, suppress: w.suppress, ..v })
        }),
{
}

/// Whether a list names each selected file once, and nothing else.
pub open spec fn names_selection(t: TreeView, files: Seq<PathView>) -> bool {
    &&& files.no_duplicates()
    &&& forall|f: PathView| #[trigger] files.contains(f) <==> totals::picked(t, f)
}

proof fn lemma_selection_size(v: AppView, files: Seq<PathView>)
    requires
        in_order(v),
        names_selection(v.state.tree, files),
    ensures
        tokens::chosen(v).len() == files.len(),
        forall|f: PathView| #[trigger]
            tokens::chosen(v).contains(f) <==> totals::picked(v.state.tree, f),
        tokens::chosen(v).no_duplicates(),
{
    let chosen = tokens::chosen(v);
    lists::lemma_filter_members(v.state.order, file_utils::selected_file(v.state.tree));
    assert forall|f: PathView| #[trigger] chosen.contains(f) <==> totals::picked(
        v.state.tree,
        f,
    ) by {
        assert(v.state.tree.dom().contains(f) <==> v.state.order.contains(f));
    }
    chosen.unique_seq_to_set();
    files.unique_seq_to_set();
    assert(chosen.to_set() =~= files.to_set()) by {
        assert forall|f: PathView| #[trigger] chosen.to_set().contains(f)
            <==> files.to_set().contains(f) by {
            assert(chosen.contains(f) <==> files.contains(f));
        }
    }
}

/// After the selection has changed, the token count is the sum of what is known of the selected
/// files; those that were handed over for counting are pending; and without a selected file there
/// is no count at all. The tree and what it shows stay as they are.
pub proof fn lemma_count_follows_selection(v: AppView, now: u64, files: Seq<PathView>)
    requires
        in_order(v),
        names_selection(v.state.tree, files),
        totals::sum_of(v.state.counts, files) <= usize::MAX,
    ensures
        ({
            let (w, queue) = tokens::tokens_updated(v, now);
            let s = w.state;
            &&& w.token_count == totals::sum_of(v.state.counts, files)
            &&& w.pending == queue.to_set()
            &&& files.len() == 0 ==> s.counts.dom() == Set::<PathView>::empty() && !w.bulk
                && !w.suppress && w.status_message == v.status_message
            &&& files.len() > 0 ==> s.counts == token_totals::updated_counts(
                v.state.tree,
                v.state.order,
                v.state.counts,
            ) && queue == token_totals::updated_requests(
                v.state.tree,
                v.state.order,
                v.state.counts,
            ) && w.bulk == v.bulk && w.suppress == v.suppress
            &&& files.len() > 0 ==> w.status_message == (if files.len() > 1000 && v.bulk {
                "Processing "@ + text::decimal(files.len()) + " files (showing first 1000)..."@
            } else {
                v.status_message
            })
            &&& w.status_updated_at == (if files.len() > 1000 && v.bulk {
                now
            } else {
                v.status_updated_at
            })
            &&& s == (StateView { counts: s.counts, ..v.state })
            &&& w == (AppView {
                state: s,
                token_count: w.token_count,
                pending: w.pending,
                bulk: w.bulk,
                suppress: w.suppress,
                status_message: w.status_message,
                status_updated_at: w.status_updated_at,
                ..v
            })
        }),
{
    lemma_selection_size(v, files);
    totals::lemma_selection_total_is_sum(v.state.tree, v.state.order, v.state.counts, files);
    let (w, queue) = tokens::tokens_updated(v, now);
    if files.len() == 0 {
        assert(queue.to_set() =~= Set::<PathView>::empty());
        assert(w.state.counts.dom() =~= Set::<PathView>::empty());
    }
}

/// A change of the selection updates the counts only where the last update is 300 milliseconds ago
/// or more; that update is then the last one.
pub proof fn lemma_update_waits(v: AppView, now: u64)
    requires
        now >= v.last_token_update,
    ensures
        now - v.last_token_update < 300_000_000 ==> tokens::tokens_updated_debounced(v, now) == (
            v,
            Seq::<PathView>::empty(),
        ),
        now - v.last_token_update >= 300_000_000 ==> tokens::tokens_updated_debounced(v, now)
            == tokens::tokens_updated(AppView { last_token_update: now, ..v }, now)
            && tokens::tokens_updated_debounced(v, now).0.last_token_update == now,
{
}

/// A result is entered under its path, the last one where there are several, and paths without a
/// result keep what they have.
pub proof fn lemma_last_result_counts(
    counts: CountsView,
    results: Seq<(PathView, usize)>,
    p: PathView,
)
    ensures
        ({
            let after = tokens::with_results(counts, results);
            &&& (forall|i: int| 0 <= i < results.len() ==> (#[trigger] results[i]).0 != p) ==> (
            after.dom().contains(p) <==> counts.dom().contains(p)) && (counts.dom().contains(p)
                ==> after[p] == counts[p])
            &&& forall|i: int|
                0 <= i < results.len() && (#[trigger] results[i]).0 == p && (forall|j: int|
                    i < j < results.len() ==> (#[trigger] results[j]).0 != p)
                    ==> after.dom().contains(p) && after[p] == Some(results[i].1)
        }),
    decreases results.len(),
{
    if results.len() > 0 {
        let rest = results.drop_last();
        lemma_last_result_counts(counts, rest, p);
        let after = tokens::with_results(counts, results);
        let n = results.len() - 1;
        assert(results[n] == results.last());
        assert forall|i: int|
            0 <= i < results.len() && (#[trigger] results[i]).0 == p && (forall|j: int|
                i < j < results.len() ==> (#[trigger] results[j]).0
                    != p) implies after.dom().contains(p) && after[p] == Some(results[i].1) by {
            if i < n {
                assert(results[n].0 != p);
                assert(rest[i] == results[i]);
                assert forall|j: int| i < j < rest.len() implies (#[trigger] rest[j]).0 != p by {
                    assert(rest[j] == results[j]);
                }
            }
        }
        if forall|i: int| 0 <= i < results.len() ==> (#[trigger] results[i]).0 != p {
            assert forall|i: int| 0 <= i < rest.len() implies (#[trigger] rest[i]).0 != p by {
                assert(rest[i] == results[i]);
            }
            assert(results[n].0 != p);
        }
    }
}

/// A path is no longer pending once there is a result for it.
pub proof fn lemma_result_settles_path(
    pending: Set<PathView>,
    results: Seq<(PathView, usize)>,
    p: PathView,
)
    ensures
        tokens::still_pending(pending, results).contains(p) <==> pending.contains(p) && forall|
            i: int,
        |
            0 <= i < results.len() ==> (#[trigger] results[i]).0 != p,
{
}

/// When results come in, they are entered, the token count is the sum over the selected files with
/// the results, and the directories have their sums anew. A bulk calculation is over with the last
/// result. Without results nothing happens.
pub proof fn lemma_results_come_in(
    v: AppView,
    results: Seq<(PathView, usize)>,
    now: u64,
    files: Seq<PathView>,
)
    requires
        in_order(v),
        names_selection(v.state.tree, files),
        totals::sum_of(tokens::with_results(v.state.counts, results), files) <= usize::MAX,
    ensures
        ({
            let w = tokens::results_processed(v, results, now);
            let entered = tokens::with_results(v.state.counts, results);
            &&& results.len() == 0 ==> w == v
            &&& results.len() > 0 ==> {
                &&& w.token_count == totals::sum_of(entered, files)
                &&& w.state.counts == token_totals::with_dir_totals(
                    v.state.tree,
                    v.state.order,
                    entered,
                )
                &&& w.pending == tokens::still_pending(v.pending, results)
                &&& w.bulk <==> v.bulk && w.pending != Set::<PathView>::empty()
                &&& !v.bulk ==> w.status_message == v.status_message
                &&& v.bulk && !w.bulk ==> w.status_message == "✓ Calculated tokens for "@
                    + text::decimal(files.len()) + " files"@
                &&& w.bulk ==> w.status_message == "Calculating tokens... "@ + text::decimal(
                    tokens::completed(entered),
                ) + "/"@ + text::decimal(tokens::completed(entered) + w.pending.len())
                &&& w.status_updated_at == (if v.bulk {
                    now
                } else {
                    v.status_updated_at
                })
                &&& w.state == (StateView { counts: w.state.counts, ..v.state })
                &&& w == (AppView {
                    state: w.state,
                    token_count: w.token_count,
                    pending: w.pending,
                    bulk: w.bulk,
                    status_message: w.status_message,
                    status_updated_at: w.status_updated_at,
                    ..v
                })
            }
        }),
{
    lemma_selection_size(v, files);
    totals::lemma_selection_total_is_sum(
        v.state.tree,
        v.state.order,
        tokens::with_results(v.state.counts, results),
        files,
    );
}

/// The number of completed counts is the number of paths with a number.
pub proof fn lemma_completed_counts(counts: CountsView, done: Seq<PathView>)
    requires
        done.no_duplicates(),
        forall|p: PathView| #[trigger]
            done.contains(p) <==> counts.dom().contains(p) && counts[p] is Some,
    ensures
        tokens::completed(counts) == done.len(),
{
    done.unique_seq_to_set();
    assert(counts.dom().filter(|p: PathView| counts[p] is Some) =~= done.to_set()) by {
        assert forall|p: PathView|
            counts.dom().filter(|p: PathView| counts[p] is Some).contains(p)
                <==> done.to_set().contains(p) by {
            assert(done.contains(p) <==> counts.dom().contains(p) && counts[p] is Some);
        }
    }
}

/// A run starts where a file is selected and, with repomix, the download is ready. Its request has
/// the selected files, the options, the root and the tree of the app, and the next number; a run
/// that is under way is cancelled for it, and the app says what runs on how many files.
pub proof fn lemma_run_has_selection(v: AppView, now: u64, files: Seq<PathView>)
    requires
        in_order(v),
        names_selection(v.state.tree, files),
        v.next_request_id < u64::MAX,
    ensures
        ({
            let (w, run) = backend::run_requested(v, now);
            let ready = v.state.options.backend is Yek || v.repomix->0.status is Ready;
            let name = match v.state.options.backend {
                Backend::Repomix => "Repomix"@,
                Backend::Yek => "Yek"@,
            };
            &&& run.request is Some <==> files.len() > 0 && ready
            &&& backend::can_start(v) <==> files.len() > 0 && ready
            &&& run.cancel_previous <==> v.is_processing && files.len() > 0
            &&& run.request matches Some(r) ==> {
                &&& r.files.no_duplicates()
                &&& forall|f: PathView| #[trigger] r.files.contains(f) <==> files.contains(f)
                &&& r.backend == v.state.options.backend
                &&& r.options == v.state.options
                &&& r.root == v.state.root
                &&& r.tree == v.state.tree
                &&& r.order == v.state.order
                &&& r.request_id == v.next_request_id
                &&& w.is_processing
                &&& w.current_request_id == Some(r.request_id)
                &&& w.next_request_id == r.request_id + 1
                &&& w.repomix == v.repomix
                &&& w.status_message == "Running "@ + name + " on "@ + text::decimal(files.len())
                    + " files..."@
                &&& w == (AppView {
                    is_processing: true,
                    current_request_id: w.current_request_id,
                    next_request_id: w.next_request_id,
                    status_message: w.status_message,
                    status_updated_at: now,
                    ..v
                })
            }
            &&& w.state == v.state && w.pending == v.pending && w.token_count == v.token_count
                && w.config == v.config
        }),
{
    lemma_selection_size(v, files);
}

/// A run that does not start says why: no file is selected, the download is under way, or it has to
/// be started, for the first time or again. Only then is a download started, and no number is
/// given out.
pub proof fn lemma_run_waits(v: AppView, now: u64)
    ensures
        ({
            let (w, run) = backend::run_requested(v, now);
            let status = v.repomix->0.status;
            &&& tokens::chosen(v).len() == 0 ==> run == (RunView {
                cancel_previous: false,
                request: None,
            }) && w == (AppView {
                status_message: "No files selected for processing"@,
                status_updated_at: now,
                ..v
            })
            &&& tokens::chosen(v).len() > 0 && v.state.options.backend is Repomix && !(status
                is Ready) ==> {
                &&& run == (RunView { cancel_previous: v.is_processing, request: None })
                &&& w == (AppView {
                    is_processing: false,
                    current_request_id: w.current_request_id,
                    repomix: w.repomix,
                    status_message: w.status_message,
                    status_updated_at: now,
                    ..v
                })
                &&& v.is_processing ==> w.current_request_id is None
                &&& !v.is_processing ==> w.current_request_id == v.current_request_id
                &&& status is Downloading ==> w.repomix == v.repomix && w.status_message
                    == "Downloading: "@ + status->Downloading_0
                &&& status is Failed ==> w.status_message == "Repomix download failed: "@
                    + status->Failed_0
                &&& status is NotStarted ==> w.status_message == "Starting repomix download..."@
                &&& !(status is Downloading) ==> w.repomix == Some(
                    RepomixView {
                        status: StatusView::Downloading("Initializing..."@),
                        ..v.repomix->0
                    },
                )
            }
        }),
{
}

/// Of several results the first one that answers the current request counts, and without one none
/// does.
pub proof fn lemma_first_answer_counts(results: Seq<BackendResult>, id: u64)
    ensures
        match backend::counting_result(results, Some(id)) {
            Some(r) => exists|i: int|
                0 <= i < results.len() && #[trigger] results[i] == r && r.request_id == id && (
                forall|j: int| 0 <= j < i ==> (#[trigger] results[j]).request_id != id),
            None => forall|j: int|
                0 <= j < results.len() ==> (#[trigger] results[j]).request_id != id,
        },
        backend::counting_result(results, None) is None,
{
    lemma_first_answer(results, id);
    if let Some(i) = backend::first_answer(results, id) {
        assert(results[i] == backend::counting_result(results, Some(id))->0);
    }
}

proof fn lemma_first_answer(results: Seq<BackendResult>, id: u64)
    ensures
        match backend::first_answer(results, id) {
            Some(i) => 0 <= i < results.len() && results[i].request_id == id && forall|j: int|
                0 <= j < i ==> (#[trigger] results[j]).request_id != id,
            None => forall|j: int|
                0 <= j < results.len() ==> (#[trigger] results[j]).request_id != id,
        },
    decreases results.len(),
{
    if results.len() > 0 {
        let rest = results.drop_last();
        lemma_first_answer(rest, id);
        assert forall|j: int| 0 <= j < rest.len() implies #[trigger] results[j] == rest[j] by {}
        assert(results[results.len() - 1] == results.last());
    }
}

/// The answer to the current request ends the run: the app is free again, and shows the message or
/// the error of the result, and the output file where there is one. Nothing else changes.
pub proof fn lemma_answer_ends_run(v: AppView, results: Seq<BackendResult>, now: u64)
    ensures
        ({
            let w = backend::backend_results_processed(v, results, now);
            match backend::counting_result(results, v.current_request_id) {
                None => w == v,
                Some(r) => {
                    &&& !w.is_processing
                    &&& w.current_request_id is None
                    &&& r.success && r.output_file is Some ==> w.status_message == r.message@
                        + " | Output: "@ + r.output_file->0@
                    &&& r.success && r.output_file is None && vstd::utf8::encode_utf8(
                        r.message@,
                    ).len() <= 100 ==> w.status_message == r.message@
                    &&& r.success && r.output_file is None && vstd::utf8::encode_utf8(
                        r.message@,
                    ).len() > 100 ==> w.status_message == vstd::utf8::decode_utf8(
                        vstd::utf8::encode_utf8(r.message@).take(100),
                    ) + "..."@
                    &&& !r.success && r.error is Some ==> w.status_message == r.error->0@
                    &&& !r.success && r.error is None ==> w.status_message
                        == "Error: Backend execution failed"@
                    &&& w == (AppView {
                        is_processing: false,
                        current_request_id: None,
                        status_message: w.status_message,
                        status_updated_at: now,
                        ..v
                    })
                },
            }
        }),
{
    if let Some(r) = backend::counting_result(results, v.current_request_id) {
        let bytes = vstd::utf8::encode_utf8(r.message@);
        if bytes.len() > 100 {
            assert(bytes.take(100) =~= bytes.subrange(0, 100));
        }
    }
}

/// A download that ends leaves repomix ready, or failed with its error, and the app says so; where
/// none is under way nothing happens.
pub proof fn lemma_download_end_is_noted(v: AppView, error: Option<Seq<char>>, now: u64)
    requires
        v.repomix is Some,
    ensures
        ({
            let w = backend::download_ended(v, error, now);
            &&& !(v.repomix->0.status is Downloading) ==> w == v
            &&& v.repomix->0.status is Downloading ==> {
                &&& error is None ==> w.repomix->0.status is Ready && w.status_message
                    == "Repomix ready!"@
                &&& error matches Some(e) ==> w.repomix->0.status == StatusView::Failed(e)
                    && w.status_message == "Repomix download failed: "@ + e
                &&& w.repomix == Some(
                    RepomixView { status: w.repomix->0.status, ..v.repomix->0 },
                )
                &&& w == (AppView {
                    repomix: w.repomix,
                    status_message: w.status_message,
                    status_updated_at: now,
                    ..v
                })
            }
        }),
{
}

/// A request that cannot be handed over leaves the app free, with a word on it.
pub proof fn lemma_dropped_run(v: AppView, now: u64)
    ensures
        backend::run_dropped(v, now) == (AppView {
            is_processing: false,
            status_message: "Failed to start backend execution"@,
            status_updated_at: now,
            ..v
        }),
{
}

/// A turn goes from the input to the download, where one is under way, to the counting results, to
/// the results of runs. It ends early after a step that has changed what the screen shows, and the
/// loop ends where the input asks for it, or where the app is to quit at the end of a turn.
pub proof fn lemma_turn_takes_its_steps(v: AppView, event: TurnView, now: u64)
    ensures
        ({
            let (w, next) = run::turn(v, event, now);
            &&& event matches TurnView::InputHandled(go_on) ==> {
                &&& !go_on ==> w == v && next is Stop
                &&& go_on ==> w == app::periodically_updated(v, now)
                &&& go_on ==> next == (if v.state.options.backend is Repomix && v.repomix->0.status
                    is Downloading {
                    TurnAction::Download
                } else {
                    TurnAction::ReceiveTokenResults
                })
            }
            &&& event matches TurnView::Downloaded(error) ==> {
                &&& w == backend::download_ended(v, error, now)
                &&& next is NextTurn <==> v.repomix->0.status is Downloading
                &&& next is ReceiveTokenResults <==> !(v.repomix->0.status is Downloading)
            }
            &&& event matches TurnView::TokenResults(results) ==> {
                &&& w == tokens::results_processed(v, results, now)
                &&& next is NextTurn <==> results.len() > 0
                &&& next is ReceiveBackendResults <==> results.len() == 0
            }
            &&& event matches TurnView::BackendResults(results) ==> {
                let counts = backend::counting_result(results, v.current_request_id) is Some;
                &&& next is Stop <==> !counts && v.should_quit
                &&& next is NextTurn <==> counts || !v.should_quit
                &&& counts ==> w == backend::backend_results_processed(v, results, now)
                &&& !counts && v.should_quit ==> w == v
                &&& !counts && !v.should_quit ==> w == (AppView { last_update: now, ..v })
            }
        }),
{
}

/// What holds of every session, whatever has happened to it: the tree hangs together, the list on
/// the screen is that of the tree, repomix has its manager, a run under way has a request, and the
/// number of a request has been given out before.
pub proof fn lemma_session_invariant(v: AppView)
    requires
        app::consistent(v),
    ensures
        file_utils::linked(v.state.tree, v.state.root),
        v.state.visible == file_utils::visible_tree(
            v.state.tree,
            v.state.root,
            v.state.order.len(),
        ),
        token_totals::fits(v.state.tree, v.state.order, v.state.counts),
        v.state.options.backend is Repomix ==> v.repomix is Some,
        v.is_processing ==> v.current_request_id is Some,
        v.current_request_id matches Some(id) ==> id < v.next_request_id,
{
    reveal(app::tree_linked);
}

/// A root that is no directory of the tree, or that is expanded already, is left as it is.
pub proof fn lemma_open_root_stays(v: AppView)
    requires
        !v.state.tree.dom().contains(v.state.root) || !v.state.tree[v.state.root].is_directory
            || v.state.tree[v.state.root].is_expanded,
    ensures
        app::root_expanded(v) == v,
{
}

/// A message can be shortened where it has at most a hundred bytes, or where a character ends after
/// the hundredth.
pub proof fn lemma_message_can_be_cut(m: Seq<char>)
    ensures
        backend::can_be_shortened(m) <==> vstd::utf8::encode_utf8(m).len() <= 100
            || vstd::utf8::is_char_boundary(vstd::utf8::encode_utf8(m), 100),
{
}

/// The totals are the sum over the selected files, and the sums of the directories; nothing else
/// changes.
pub proof fn lemma_totals_are_recalculated(v: AppView, files: Seq<PathView>)
    requires
        in_order(v),
        names_selection(v.state.tree, files),
        totals::sum_of(v.state.counts, files) <= usize::MAX,
    ensures
        ({
            let w = tokens::with_totals(v);
            &&& w.token_count == totals::sum_of(v.state.counts, files)
            &&& w.state.counts == token_totals::with_dir_totals(
                v.state.tree,
                v.state.order,
                v.state.counts,
            )
            &&& w == (AppView {
                state: StateView { counts: w.state.counts, ..v.state },
                token_count: w.token_count,
                ..v
            })
        }),
{
    totals::lemma_selection_total_is_sum(v.state.tree, v.state.order, v.state.counts, files);
}

/// A status message is set with its time, and nothing else changes.
pub proof fn lemma_status_is_set(v: AppView, message: Seq<char>, now: u64)
    ensures
        app::with_status(v, message, now).status_message == message,
        app::with_status(v, message, now).status_updated_at == now,
        app::with_status(v, message, now) == (AppView {
            status_message: app::with_status(v, message, now).status_message,
            status_updated_at: app::with_status(v, message, now).status_updated_at,
            ..v
        }),
{
}

} // verus!
