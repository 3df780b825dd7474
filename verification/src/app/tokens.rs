//! The token counts of the app: what a changed selection asks for, and what the results change.

use vstd::prelude::*;
use vstd::string::*;

use crate::app;
use crate::app::{App, AppView};
use crate::file_utils;
use crate::path;
use crate::path::{FilePath, PathView};
use crate::text;
use crate::token_totals;
use crate::path_map::{PathMap, PathSet};
use crate::token_totals::{CountsView, TokenCounts};
use crate::types::StateView;

verus! {

/// The selected files of the app.
pub open spec fn chosen(v: AppView) -> Seq<PathView> {
    file_utils::selected_files(v.state.tree, v.state.order)
}

/// The app after an update of the token counts, and the files that are handed over for counting.
pub open spec fn tokens_updated(v: AppView, now: u64) -> (AppView, Seq<PathView>) {
    let s = v.state;
    if chosen(v).len() == 0 {
        (
            AppView {
                state: StateView { counts: Map::empty(), ..s },
                token_count: 0,
                pending: Set::empty(),
                bulk: false,
                suppress: false,
                ..v
            },
            Seq::empty(),
        )
    } else {
        let requests = token_totals::updated_requests(s.tree, s.order, s.counts);
        let noted = if chosen(v).len() > 1000 && v.bulk {
            app::with_status(
                v,
                "Processing "@ + text::decimal(chosen(v).len())
                    + " files (showing first 1000)..."@,
                now,
            )
        } else {
            v
        };
        (
            AppView {
                state: StateView {
                    counts: token_totals::updated_counts(s.tree, s.order, s.counts),
                    ..s
                },
                token_count: token_totals::total(s.counts, chosen(v)) as usize,
                pending: requests.to_set(),
                ..noted
            },
            requests,
        )
    }
}

/// The app after an update of the token counts, unless the last one is less than 300 milliseconds
/// ago.
pub open spec fn tokens_updated_debounced(v: AppView, now: u64) -> (AppView, Seq<PathView>) {
    if app::elapsed(now, v.last_token_update) < 300_000_000 {
        (v, Seq::empty())
    } else {
        tokens_updated(AppView { last_token_update: now, ..v }, now)
    }
}

/// The view of a list of counting results.
pub open spec fn results_view(results: Seq<(FilePath, usize)>) -> Seq<(PathView, usize)> {
    results.map_values(|r: (FilePath, usize)| (r.0@, r.1))
}

/// The counts with the results entered, later ones over earlier ones.
pub open spec fn with_results(counts: CountsView, results: Seq<(PathView, usize)>) -> CountsView
    decreases results.len(),
{
    if results.len() == 0 {
        counts
    } else {
        with_results(counts, results.drop_last()).insert(
            results.last().0,
            Some(results.last().1),
        )
    }
}

/// Whether there is a result for the path.
pub open spec fn has_result(results: Seq<(PathView, usize)>, p: PathView) -> bool {
    exists|i: int| 0 <= i < results.len() && (#[trigger] results[i]).0 == p
}

/// The paths whose counts are still under way after the results.
pub open spec fn still_pending(pending: Set<PathView>, results: Seq<(PathView, usize)>) -> Set<
    PathView,
> {
    Set::new(|p: PathView| pending.contains(p) && !has_result(results, p))
}

/// The number of paths with a count.
pub open spec fn completed(counts: CountsView) -> nat {
    counts.dom().filter(|p: PathView| counts[p] is Some).len()
}

/// The app with the sums over the selected files brought up to date.
pub open spec fn with_totals(v: AppView) -> AppView {
    let s = v.state;
    AppView {
        state: StateView {
            counts: token_totals::with_dir_totals(s.tree, s.order, s.counts),
            ..s
        },
        token_count: token_totals::total(s.counts, chosen(v)) as usize,
        ..v
    }
}

/// The app with counting results entered.
pub open spec fn results_entered(v: AppView, results: Seq<(PathView, usize)>) -> AppView {
    AppView {
        state: StateView { counts: with_results(v.state.counts, results), ..v.state },
        pending: still_pending(v.pending, results),
        ..v
    }
}

/// The app after the last result of a calculation: a bulk calculation is over and says so.
pub open spec fn bulk_finished(v: AppView, now: u64) -> AppView {
    if v.bulk {
        app::with_status(
            AppView { bulk: false, ..v },
            "✓ Calculated tokens for "@ + text::decimal(chosen(v).len()) + " files"@,
            now,
        )
    } else {
        v
    }
}

/// The app after some of the results of a calculation: a bulk calculation says how far it is.
pub open spec fn progress_shown(v: AppView, now: u64) -> AppView {
    if v.bulk {
        app::with_status(
            v,
            "Calculating tokens... "@ + text::decimal(completed(v.state.counts)) + "/"@
                + text::decimal(completed(v.state.counts) + v.pending.len()),
            now,
        )
    } else {
        v
    }
}

/// The app after counting results have come in.
pub open spec fn results_processed(
    v: AppView,
    results: Seq<(PathView, usize)>,
    now: u64,
) -> AppView {
    let entered = results_entered(v, results);
    if results.len() == 0 {
        v
    } else if entered.pending == Set::<PathView>::empty() {
        bulk_finished(with_totals(entered), now)
    } else {
        with_totals(progress_shown(entered, now))
    }
}

impl App {
    /// Forgets all token counts, for a selection without files.
    fn clear_tokens(&mut self)
        requires
            old(self).wf(),
        ensures
            final(self).wf(),
            final(self)@ == (AppView {
                state: StateView { counts: Map::empty(), ..old(self)@.state },
                token_count: 0,
                pending: Set::empty(),
                bulk: false,
                suppress: false,
                ..old(self)@
            }),
    {
        self.token_count = 0;
        self.state.individual_token_counts.clear();
        self.pending_token_calculations.clear();
        self.is_bulk_token_calculation = false;
        self.suppress_status_messages = false;
        proof {
            token_totals::lemma_empty_fits(self@.state.tree, self@.state.order);
        }
    }

    /// Brings the token counts up to date with a selection of at least one file.
    fn count_tokens(&mut self, selected_files: &Vec<FilePath>) -> (r: Vec<FilePath>)
        requires
            old(self).wf(),
            path::paths(selected_files@) == chosen(old(self)@),
        ensures
            final(self).wf(),
            path::paths(r@) == token_totals::updated_requests(
                old(self)@.state.tree,
                old(self)@.state.order,
                old(self)@.state.counts,
            ),
            final(self)@ == (AppView {
                state: StateView {
                    counts: token_totals::updated_counts(
                        old(self)@.state.tree,
                        old(self)@.state.order,
                        old(self)@.state.counts,
                    ),
                    ..old(self)@.state
                },
                token_count: token_totals::total(
                    old(self)@.state.counts,
                    chosen(old(self)@),
                ) as usize,
                pending: path::paths(r@).to_set(),
                ..old(self)@
            }),
    {
        let (sum, r) = token_totals::update_counts(
            &self.state.file_tree,
            &mut self.state.individual_token_counts,
            &mut self.pending_token_calculations,
            selected_files,
        );
        self.token_count = sum;
        r
    }

    /// Updates the token count for currently selected files whenever file selection changes.
    /// Returns immediately, with the files to count in the background.
    pub fn update_token_count_non_blocking(&mut self, now: u64) -> (r: Vec<FilePath>)
        requires
            old(self).wf(),
        ensures
            final(self).wf(),
            (final(self)@, path::paths(r@)) == tokens_updated(old(self)@, now),
    {
        let selected_files = file_utils::get_selected_files(&self.state.file_tree);
        assert(path::paths(selected_files@).len() == selected_files@.len());
        if selected_files.len() == 0 {
            self.clear_tokens();
            let r: Vec<FilePath> = Vec::new();
            assert(path::paths(r@) =~= Seq::empty());
            return r;
        }
        if selected_files.len() > 1000 && self.is_bulk_token_calculation {
            let n = text::decimal_text(selected_files.len() as u128);
            self.set_status_message(
                text::concat3("Processing ", n.as_str(), " files (showing first 1000)..."),
                now,
            );
        }
        self.count_tokens(&selected_files)
    }

    /// Debouncing that only updates if enough time has passed.
    /// Prevents UI slow down from rapid selection changes.
    pub fn update_token_count_debounced(&mut self, now: u64) -> (r: Vec<FilePath>)
        requires
            old(self).wf(),
        ensures
            final(self).wf(),
            (final(self)@, path::paths(r@)) == tokens_updated_debounced(old(self)@, now),
    {
        if app::elapsed_time(now, self.last_token_update) < 300_000_000 {
            let r: Vec<FilePath> = Vec::new();
            assert(path::paths(r@) =~= Seq::empty());
            return r;
        }
        self.last_token_update = now;
        self.update_token_count_non_blocking(now)
    }
}

proof fn lemma_filter_once(s: Seq<PathView>, pred: spec_fn(PathView) -> bool)
    requires
        s.no_duplicates(),
    ensures
        s.filter(pred).no_duplicates(),
    decreases s.len(),
{
    reveal(Seq::filter);
    if s.len() > 0 {
        let rest = s.drop_last();
        lemma_filter_once(rest, pred);
        assert(!rest.filter(pred).contains(s.last())) by {
            if rest.filter(pred).contains(s.last()) {
                rest.lemma_filter_contains_rev(pred, s.last());
                let i = rest.index_of(s.last());
                assert(s[i] == s[s.len() - 1]);
            }
        }
    }
}

/// The number of paths with a count.
fn count_completed(counts: &TokenCounts) -> (r: usize)
    requires
        counts.wf(),
    ensures
        r == completed(counts@),
{
    let ghost pred = |p: PathView| counts@[p] is Some;
    let ghost keys = counts.keys();
    let mut n: usize = 0;
    let mut i: usize = 0;
    assert(keys.take(0).filter(pred).len() == 0) by {
        keys.take(0).lemma_filter_len(pred);
    }
    while i < counts.len()
        invariant
            counts.wf(),
            keys == counts.keys(),
            pred == (|p: PathView| counts@[p] is Some),
            i <= keys.len(),
            n <= i,
            n == keys.take(i as int).filter(pred).len(),
        decreases keys.len() - i,
    {
        proof {
            file_utils::lemma_filter_step(keys, pred, i as int);
        }
        if counts.value_at(i).is_some() {
            n = n + 1;
        }
        i = i + 1;
    }
    proof {
        assert(keys.take(i as int) =~= keys);
        let found = keys.filter(pred);
        lemma_filter_once(keys, pred);
        found.unique_seq_to_set();
        counts.lemma_keys();
        assert forall|p: PathView| found.contains(p) <==> counts@.dom().filter(pred).contains(
            p,
        ) by {
            if found.contains(p) {
                keys.lemma_filter_contains_rev(pred, p);
                keys.lemma_filter_pred(pred, found.index_of(p));
            }
            if keys.contains(p) && pred(p) {
                keys.lemma_filter_contains(pred, keys.index_of(p));
            }
        }
        assert(found.to_set() =~= counts@.dom().filter(pred));
    }
    n
}

/// Enters the results into the counts.
fn enter_results(counts: &mut TokenCounts, results: &Vec<(FilePath, usize)>)
    requires
        old(counts).wf(),
    ensures
        final(counts).wf(),
        final(counts)@ == with_results(old(counts)@, results_view(results@)),
{
    let ghost list = results_view(results@);
    let ghost start = counts@;
    let mut i: usize = 0;
    while i < results.len()
        invariant
            counts.wf(),
            i <= results@.len(),
            list == results_view(results@),
            counts@ == with_results(start, list.take(i as int)),
        decreases results.len() - i,
    {
        assert(list.take(i + 1).drop_last() =~= list.take(i as int));
        counts.insert(results[i].0.clone(), Some(results[i].1));
        i = i + 1;
    }
    assert(list.take(i as int) =~= list);
}

/// Takes the paths that have a result out of those under way.
fn settle_pending(pending: &mut PathSet, results: &Vec<(FilePath, usize)>)
    requires
        old(pending).wf(),
    ensures
        final(pending).wf(),
        final(pending)@ == still_pending(old(pending)@, results_view(results@)),
{
    let ghost list = results_view(results@);
    let ghost start = pending@;
    let mut i: usize = 0;
    assert(pending@ =~= still_pending(start, list.take(0)));
    while i < results.len()
        invariant
            pending.wf(),
            i <= results@.len(),
            list == results_view(results@),
            pending@ == still_pending(start, list.take(i as int)),
        decreases results.len() - i,
    {
        pending.remove(&results[i].0);
        proof {
            let n = list.take(i as int);
            let m = list.take(i + 1);
            assert(m =~= n.push(list[i as int]));
            assert forall|p: PathView| #[trigger] has_result(m, p) <==> has_result(n, p) || p
                == list[i as int].0 by {
                if has_result(n, p) {
                    let k = choose|k: int| 0 <= k < n.len() && (#[trigger] n[k]).0 == p;
                    assert(m[k].0 == p);
                }
                if has_result(m, p) && p != list[i as int].0 {
                    let k = choose|k: int| 0 <= k < m.len() && (#[trigger] m[k]).0 == p;
                    assert(n[k].0 == p);
                }
                assert(m[i as int].0 == list[i as int].0);
            }
            assert(pending@ =~= still_pending(start, m));
        }
        i = i + 1;
    }
    assert(list.take(i as int) =~= list);
}

/// A copy of the counts.
fn copy_counts(counts: &TokenCounts) -> (r: TokenCounts)
    requires
        counts.wf(),
    ensures
        r.wf(),
        r@ == counts@,
{
    let mut r: TokenCounts = PathMap::new();
    let mut i: usize = 0;
    while i < counts.len()
        invariant
            counts.wf(),
            r.wf(),
            i <= counts.keys().len(),
            forall|p: PathView| #[trigger]
                r@.dom().contains(p) <==> counts.keys().take(i as int).contains(p),
            forall|p: PathView| #[trigger] r@.dom().contains(p) ==> r@[p] == counts@[p],
        decreases counts.keys().len() - i,
    {
        r.insert(counts.key_at(i).clone(), *counts.value_at(i));
        proof {
            token_totals::lemma_take_contains(counts.keys(), i as int);
        }
        i = i + 1;
    }
    proof {
        counts.lemma_keys();
        assert(counts.keys().take(i as int) =~= counts.keys());
        assert(r@ =~= counts@);
    }
    r
}

impl App {
    /// Whether the sums stay within the range of a count once the results have been entered.
    pub fn token_results_fit(&self, results: &Vec<(FilePath, usize)>) -> (r: bool)
        requires
            self.wf(),
        ensures
            r == token_totals::fits(
                self@.state.tree,
                self@.state.order,
                with_results(self@.state.counts, results_view(results@)),
            ),
    {
        let mut counts = copy_counts(&self.state.individual_token_counts);
        enter_results(&mut counts, results);
        token_totals::counts_fit(&self.state.file_tree, &counts)
    }

    /// Recalculates the totals over the selected files and the directories.
    pub fn recalculate_token_totals(&mut self)
        requires
            old(self).wf(),
        ensures
            final(self).wf(),
            final(self)@ == with_totals(old(self)@),
    {
        proof {
            token_totals::lemma_dir_totals_fit(
                self@.state.tree,
                self@.state.order,
                self@.state.counts,
            );
            self.state.file_tree.lemma_keys();
        }
        self.token_count =
        token_totals::selected_total(&self.state.file_tree, &self.state.individual_token_counts);
        token_totals::recalculate_directory_token_counts(
            &self.state.file_tree,
            &mut self.state.individual_token_counts,
        );
    }

    /// Enters the results into the counts, and takes them out of those under way.
    fn enter_token_results(&mut self, results: &Vec<(FilePath, usize)>)
        requires
            old(self).wf(),
            token_totals::fits(
                old(self)@.state.tree,
                old(self)@.state.order,
                with_results(old(self)@.state.counts, results_view(results@)),
            ),
        ensures
            final(self).wf(),
            final(self)@ == results_entered(old(self)@, results_view(results@)),
    {
        enter_results(&mut self.state.individual_token_counts, results);
        settle_pending(&mut self.pending_token_calculations, results);
    }

    /// Ends a bulk calculation, where one is under way, and says so.
    fn finish_bulk_calculation(&mut self, now: u64)
        requires
            old(self).wf(),
        ensures
            final(self).wf(),
            final(self)@ == bulk_finished(old(self)@, now),
    {
        if self.is_bulk_token_calculation {
            self.is_bulk_token_calculation = false;
            let selected = file_utils::get_selected_files(&self.state.file_tree);
            assert(path::paths(selected@).len() == selected@.len());
            let n = text::decimal_text(selected.len() as u128);
            self.set_status_message(
                text::concat3("✓ Calculated tokens for ", n.as_str(), " files"),
                now,
            );
        }
    }

    /// Says how far a bulk calculation has come, where one is under way.
    fn show_progress(&mut self, now: u64)
        requires
            old(self).wf(),
        ensures
            final(self).wf(),
            final(self)@ == progress_shown(old(self)@, now),
    {
        if self.is_bulk_token_calculation {
            let done: usize = count_completed(&self.state.individual_token_counts);
            let all: u128 = done as u128 + self.pending_token_calculations.len() as u128;
            let shown_done = text::decimal_text(done as u128);
            let shown_all = text::decimal_text(all);
            let mut message = text::concat3("Calculating tokens... ", shown_done.as_str(), "/");
            message.append(shown_all.as_str());
            self.set_status_message(message, now);
        }
    }

    /// Processes token calculation results from the background task (non-blocking).
    /// Returns whether there were any.
    pub fn process_token_results(&mut self, results: &Vec<(FilePath, usize)>, now: u64) -> (r: bool)
        requires
            old(self).wf(),
            token_totals::fits(
                old(self)@.state.tree,
                old(self)@.state.order,
                with_results(old(self)@.state.counts, results_view(results@)),
            ),
        ensures
            final(self).wf(),
            r == (results@.len() > 0),
            final(self)@ == results_processed(old(self)@, results_view(results@), now),
    {
        assert(results_view(results@).len() == results@.len());
        if results.len() == 0 {
            return false;
        }
        self.enter_token_results(results);
        if self.pending_token_calculations.is_empty() {
            self.recalculate_token_totals();
            self.finish_bulk_calculation(now);
        } else {
            self.show_progress(now);
            self.recalculate_token_totals();
        }
        true
    }
}

} // verus!
