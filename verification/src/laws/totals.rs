//! What the token counts of files, directories and the whole selection are.

use vstd::prelude::*;

use crate::file_utils;
use crate::laws::lists;
use crate::path;
use crate::path::PathView;
use crate::token_totals;
use crate::token_totals::CountsView;
use crate::types::TreeView;

verus! {

/// The tokens that are known of one file: nothing without an entry, and nothing while the count is
/// under way.
pub open spec fn tokens_of(counts: CountsView, file: PathView) -> nat {
    match counts.get(file) {
        Some(Some(n)) => n as nat,
        _ => 0,
    }
}

/// The tokens that are known of some files, one after the other.
pub open spec fn sum_of(counts: CountsView, files: Seq<PathView>) -> nat
    decreases files.len(),
{
    if files.len() == 0 {
        0
    } else {
        tokens_of(counts, files.first()) + sum_of(counts, files.drop_first())
    }
}

/// Whether a file lies in a directory, directly or further down: taking parents leads from the
/// file to the directory.
pub open spec fn lies_inside(dir: PathView, file: PathView) -> bool {
    &&& dir.len() < file.len()
    &&& file.take(dir.len() as int) == dir
    &&& forall|i: int|
        dir.len() <= i < file.len() ==> !(#[trigger] file[i] is Prefix || file[i] is RootDir
            || file[i] is ForeignPrefix)
}

/// Whether a path is a selected file of the tree.
pub open spec fn picked(t: TreeView, p: PathView) -> bool {
    t.dom().contains(p) && t[p].is_selected && !t[p].is_directory
}

/// Whether a path is a directory of the tree that shows a count: it is selected itself, or
/// something further down is.
pub open spec fn counts_for(t: TreeView, p: PathView) -> bool {
    &&& t.dom().contains(p)
    &&& t[p].is_directory
    &&& t[p].is_selected || exists|q: PathView| #[trigger]
        t.dom().contains(q) && t[q].is_selected && q.len() > p.len() && q.take(p.len() as int) == p
}

/// The directories that count are those that show a count.
pub proof fn lemma_counts_for(t: TreeView, p: PathView)
    ensures
        counts_for(t, p) == token_totals::shows_directory(t, p),
{
    assert forall|q: PathView| path::is_below(q, p) <==> q.len() > p.len() && q.take(
        p.len() as int,
    ) == p by {
        if q.len() >= p.len() {
            assert(q.subrange(0, p.len() as int) =~= q.take(p.len() as int));
            if q.len() == p.len() {
                assert(q.take(p.len() as int) =~= q);
            }
        }
    }
    if counts_for(t, p) && !t[p].is_selected {
        let q = choose|q: PathView| #[trigger]
            t.dom().contains(q) && t[q].is_selected && q.len() > p.len() && q.take(p.len() as int)
                == p;
        assert(path::is_below(q, p));
    }
    if token_totals::shows_directory(t, p) && !t[p].is_selected {
        let q = choose|q: PathView| #[trigger]
            t.dom().contains(q) && t[q].is_selected && path::is_below(q, p);
        assert(q.len() > p.len() && q.take(p.len() as int) == p);
    }
}

/// Lying in a directory is the same as having it for an ancestor.
pub proof fn lemma_lies_inside(dir: PathView, file: PathView)
    ensures
        lies_inside(dir, file) == token_totals::lies_in(dir)(file),
{
    if dir.len() < file.len() {
        assert(file.take(dir.len() as int) =~= file.subrange(0, dir.len() as int));
    }
}

proof fn lemma_total_parts(counts: CountsView, a: Seq<PathView>, b: Seq<PathView>)
    ensures
        token_totals::total(counts, a + b) == token_totals::total(counts, a)
            + token_totals::total(counts, b),
    decreases b.len(),
{
    if b.len() == 0 {
        assert(a + b =~= a);
    } else {
        lemma_total_parts(counts, a, b.drop_last());
        assert((a + b).drop_last() =~= a + b.drop_last());
        assert((a + b).last() == b.last());
    }
}

/// The known tokens of a list of files are the sum of what is known of each.
pub proof fn lemma_total_is_sum(counts: CountsView, files: Seq<PathView>)
    ensures
        token_totals::total(counts, files) == sum_of(counts, files),
    decreases files.len(),
{
    if files.len() > 0 {
        let head = seq![files.first()];
        let rest = files.drop_first();
        assert(files =~= head + rest);
        lemma_total_is_sum(counts, rest);
        lemma_total_parts(counts, head, rest);
        assert(head.drop_last() =~= Seq::<PathView>::empty());
        assert(token_totals::total(counts, head.drop_last()) == 0);
    }
}

/// The order in which files are taken makes no difference to their sum.
pub proof fn lemma_sum_in_any_order(counts: CountsView, a: Seq<PathView>, b: Seq<PathView>)
    requires
        a.no_duplicates(),
        b.no_duplicates(),
        forall|f: PathView| #[trigger] a.contains(f) <==> b.contains(f),
    ensures
        sum_of(counts, a) == sum_of(counts, b),
    decreases a.len(),
{
    lemma_total_is_sum(counts, a);
    lemma_total_is_sum(counts, b);
    if a.len() == 0 {
        if b.len() > 0 {
            assert(b.contains(b[0]));
            assert(a.contains(b[0]));
        }
    } else {
        let f = a.last();
        assert(a.contains(f));
        let i = b.index_of(f);
        let left = b.take(i);
        let right = b.skip(i + 1);
        let rest = left + right;
        let shorter = a.drop_last();
        assert(b =~= left.push(f) + right);
        assert(left.push(f).drop_last() =~= left);
        lemma_total_parts(counts, left.push(f), right);
        lemma_total_parts(counts, left, right);
        assert(rest.no_duplicates()) by {
            assert forall|j: int, k: int|
                0 <= j < rest.len() && 0 <= k < rest.len() && j != k implies rest[j] != rest[k] by {
                let x = if j < i { j } else { j + 1 };
                let y = if k < i { k } else { k + 1 };
                assert(rest[j] == b[x] && rest[k] == b[y]);
            }
        }
        assert forall|g: PathView| #[trigger] shorter.contains(g) <==> rest.contains(g) by {
            if shorter.contains(g) {
                let j = shorter.index_of(g);
                assert(a[j] == g && g != f);
                assert(a.contains(g));
                let k = b.index_of(g);
                assert(rest[if k < i { k } else { k - 1 }] == g);
            }
            if rest.contains(g) {
                let j = rest.index_of(g);
                let x = if j < i { j } else { j + 1 };
                assert(b[x] == g && g != f);
                assert(b.contains(g));
                assert(a.contains(g));
                assert(shorter[a.index_of(g)] == g);
            }
        }
        lemma_sum_in_any_order(counts, shorter, rest);
        lemma_total_is_sum(counts, shorter);
        lemma_total_is_sum(counts, rest);
    }
}

/// The selected files of a directory, once each.
proof fn lemma_files_of_directory(t: TreeView, order: Seq<PathView>, dir: PathView) -> (files: Seq<
    PathView,
>)
    requires
        order.no_duplicates(),
        forall|p: PathView| #[trigger] t.dom().contains(p) <==> order.contains(p),
    ensures
        files == file_utils::selected_files(t, order).filter(token_totals::lies_in(dir)),
        files.no_duplicates(),
        forall|f: PathView| #[trigger] files.contains(f) <==> picked(t, f) && lies_inside(dir, f),
{
    let chosen = file_utils::selected_files(t, order);
    lists::lemma_filter_members(order, file_utils::selected_file(t));
    lists::lemma_filter_members(chosen, token_totals::lies_in(dir));
    let files = chosen.filter(token_totals::lies_in(dir));
    assert forall|f: PathView| #[trigger] files.contains(f) <==> picked(t, f) && lies_inside(
        dir,
        f,
    ) by {
        lemma_lies_inside(dir, f);
        assert(chosen.contains(f) <==> order.contains(f) && file_utils::selected_file(t)(f));
        assert(t.dom().contains(f) <==> order.contains(f));
    }
    files
}

/// A directory that shows a count shows the sum of what is known of the selected files in it, and
/// of no other files, in whatever order they are taken.
pub proof fn lemma_directory_shows_its_files(
    t: TreeView,
    order: Seq<PathView>,
    counts: CountsView,
    dir: PathView,
    inside: Seq<PathView>,
)
    requires
        order.no_duplicates(),
        forall|p: PathView| #[trigger] t.dom().contains(p) <==> order.contains(p),
        counts_for(t, dir),
        inside.no_duplicates(),
        forall|f: PathView| #[trigger] inside.contains(f) <==> picked(t, f) && lies_inside(dir, f),
        sum_of(counts, inside) <= usize::MAX,
    ensures
        ({
            let shown = token_totals::with_dir_totals(t, order, counts);
            &&& shown.dom().contains(dir)
            &&& shown[dir] is Some
            &&& shown[dir]->0 == sum_of(counts, inside)
        }),
{
    lemma_counts_for(t, dir);
    let files = lemma_files_of_directory(t, order, dir);
    assert forall|f: PathView| #[trigger] files.contains(f) <==> inside.contains(f) by {}
    lemma_sum_in_any_order(counts, files, inside);
    lemma_total_is_sum(counts, files);
}

/// A directory none of whose files is selected shows zero, and one with a single selected file
/// shows what is known of that file.
pub proof fn lemma_directory_with_few_files(
    t: TreeView,
    order: Seq<PathView>,
    counts: CountsView,
    dir: PathView,
    file: PathView,
)
    requires
        order.no_duplicates(),
        forall|p: PathView| #[trigger] t.dom().contains(p) <==> order.contains(p),
        counts_for(t, dir),
        forall|f: PathView| picked(t, f) && #[trigger] lies_inside(dir, f) ==> f == file,
    ensures
        ({
            let shown = token_totals::with_dir_totals(t, order, counts);
            shown[dir] == Some(
                (if picked(t, file) && lies_inside(dir, file) {
                    tokens_of(counts, file)
                } else {
                    0
                }) as usize,
            )
        }),
{
    let inside = if picked(t, file) && lies_inside(dir, file) {
        seq![file]
    } else {
        Seq::empty()
    };
    assert forall|f: PathView| #[trigger] inside.contains(f) <==> picked(t, f) && lies_inside(
        dir,
        f,
    ) by {
        if inside.len() > 0 {
            assert(inside[0] == file);
        }
    }
    assert(inside.len() > 0 ==> inside.drop_first() =~= Seq::<PathView>::empty());
    assert(sum_of(counts, inside.drop_first()) == 0 || inside.len() == 0);
    lemma_directory_shows_its_files(t, order, counts, dir, inside);
}

/// What is known of files outside of a directory makes no difference to what the directory shows,
/// and neither does what is known of files that are not selected, or of directories.
pub proof fn lemma_directory_ignores_outside(
    t: TreeView,
    order: Seq<PathView>,
    one: CountsView,
    other: CountsView,
    dir: PathView,
)
    requires
        order.no_duplicates(),
        forall|p: PathView| #[trigger] t.dom().contains(p) <==> order.contains(p),
        counts_for(t, dir),
        forall|f: PathView|
            picked(t, f) && #[trigger] lies_inside(dir, f) ==> tokens_of(one, f) == tokens_of(
                other,
                f,
            ),
    ensures
        token_totals::with_dir_totals(t, order, one)[dir] == token_totals::with_dir_totals(
            t,
            order,
            other,
        )[dir],
{
    lemma_counts_for(t, dir);
    let files = lemma_files_of_directory(t, order, dir);
    assert forall|i: int| 0 <= i < files.len() implies token_totals::known_count(
        one,
        #[trigger] files[i],
    ) == token_totals::known_count(other, files[i]) by {
        assert(files.contains(files[i]));
        assert(tokens_of(one, files[i]) == tokens_of(other, files[i]));
    }
    token_totals::lemma_total_monotone(one, other, files);
    token_totals::lemma_total_monotone(other, one, files);
}

/// One more token in a selected file is one more token in each directory that the file lies in and
/// that shows a count, and in no other.
pub proof fn lemma_tokens_add_to_own_directories(
    t: TreeView,
    order: Seq<PathView>,
    counts: CountsView,
    file: PathView,
    more: usize,
    dir: PathView,
    inside: Seq<PathView>,
)
    requires
        order.no_duplicates(),
        forall|p: PathView| #[trigger] t.dom().contains(p) <==> order.contains(p),
        counts_for(t, dir),
        picked(t, file),
        inside.no_duplicates(),
        forall|f: PathView| #[trigger] inside.contains(f) <==> picked(t, f) && lies_inside(dir, f),
        sum_of(counts, inside) <= usize::MAX,
        sum_of(counts.insert(file, Some(more)), inside) <= usize::MAX,
    ensures
        ({
            let before = token_totals::with_dir_totals(t, order, counts)[dir]->0;
            let after = token_totals::with_dir_totals(
                t,
                order,
                counts.insert(file, Some(more)),
            )[dir]->0;
            after - before == (if lies_inside(dir, file) {
                more - tokens_of(counts, file)
            } else {
                0
            })
        }),
{
    let next = counts.insert(file, Some(more));
    lemma_directory_shows_its_files(t, order, counts, dir, inside);
    lemma_directory_shows_its_files(t, order, next, dir, inside);
    if inside.contains(file) {
        let i = inside.index_of(file);
        let rest = inside.remove(i);
        lemma_sum_without(counts, inside, i);
        lemma_sum_without(next, inside, i);
        assert forall|k: int| 0 <= k < rest.len() implies tokens_of(counts, #[trigger] rest[k])
            == tokens_of(next, rest[k]) by {
            assert(rest[k] == inside[if k < i { k } else { k + 1 }]);
        }
        lemma_sum_agrees(counts, next, rest);
    } else {
        assert forall|k: int| 0 <= k < inside.len() implies tokens_of(
            counts,
            #[trigger] inside[k],
        ) == tokens_of(next, inside[k]) by {
            assert(inside.contains(inside[k]));
        }
        lemma_sum_agrees(counts, next, inside);
    }
}

proof fn lemma_sum_without(counts: CountsView, files: Seq<PathView>, i: int)
    requires
        0 <= i < files.len(),
    ensures
        sum_of(counts, files) == sum_of(counts, files.remove(i)) + tokens_of(counts, files[i]),
    decreases files.len(),
{
    if i == 0 {
        assert(files.remove(i) =~= files.drop_first());
    } else {
        lemma_sum_without(counts, files.drop_first(), i - 1);
        assert(files.drop_first().remove(i - 1) =~= files.remove(i).drop_first());
        assert(files.remove(i).first() == files.first());
    }
}

proof fn lemma_sum_agrees(one: CountsView, other: CountsView, files: Seq<PathView>)
    requires
        forall|k: int|
            0 <= k < files.len() ==> tokens_of(one, #[trigger] files[k]) == tokens_of(
                other,
                files[k],
            ),
    ensures
        sum_of(one, files) == sum_of(other, files),
    decreases files.len(),
{
    if files.len() > 0 {
        let rest = files.drop_first();
        assert forall|k: int| 0 <= k < rest.len() implies tokens_of(one, #[trigger] rest[k])
            == tokens_of(other, rest[k]) by {
            assert(rest[k] == files[k + 1]);
        }
        assert(files[0] == files.first());
        lemma_sum_agrees(one, other, rest);
    }
}

/// Summing up writes to the directories that show a count and to nothing else.
pub proof fn lemma_sums_touch_directories_only(
    t: TreeView,
    order: Seq<PathView>,
    counts: CountsView,
    p: PathView,
)
    ensures
        ({
            let shown = token_totals::with_dir_totals(t, order, counts);
            &&& shown.dom().contains(p) <==> counts.dom().contains(p) || counts_for(t, p)
            &&& !counts_for(t, p) && counts.dom().contains(p) ==> shown[p] == counts[p]
        }),
{
    lemma_counts_for(t, p);
}

/// The tokens of one file go to the directories that the file lies in and that show a count; each
/// of them has that many more than before, and nothing else changes.
pub proof fn lemma_file_adds_to_directories(
    t: TreeView,
    counts: CountsView,
    file: PathView,
    tokens: usize,
    p: PathView,
)
    requires
        tokens_of(counts, p) + tokens <= usize::MAX,
    ensures
        ({
            let after = token_totals::with_added(t, counts, file, tokens as nat, 0);
            if lies_inside(p, file) && counts_for(t, p) {
                after.dom().contains(p) && after[p] == Some((tokens_of(counts, p) + tokens) as usize)
            } else {
                after.dom().contains(p) == counts.dom().contains(p) && (counts.dom().contains(p)
                    ==> after[p] == counts[p])
            }
        }),
{
    lemma_counts_for(t, p);
    lemma_lies_inside(p, file);
}

/// Whether the count of a path is kept: the path is selected, or it is a directory with something
/// selected further down.
pub open spec fn keeps_count(t: TreeView, p: PathView) -> bool {
    (t.dom().contains(p) && t[p].is_selected) || counts_for(t, p)
}

/// The counts that are kept are those that are shown.
pub proof fn lemma_keeps_count(t: TreeView, p: PathView)
    ensures
        keeps_count(t, p) == token_totals::shows_count(t, p),
{
    lemma_counts_for(t, p);
}

/// A count goes when its path is no longer in the selection, and is otherwise as it was.
pub proof fn lemma_counts_outlive_selection(t: TreeView, counts: CountsView, p: PathView)
    ensures
        ({
            let after = token_totals::kept(t, counts);
            &&& after.dom().contains(p) <==> counts.dom().contains(p) && keeps_count(t, p)
            &&& after.dom().contains(p) ==> after[p] == counts[p]
        }),
{
    lemma_keeps_count(t, p);
}

/// The known tokens of all files fit where their sum does, in whatever order they are taken.
pub proof fn lemma_fits_is_sum_of_all_files(
    t: TreeView,
    order: Seq<PathView>,
    counts: CountsView,
    files: Seq<PathView>,
)
    requires
        order.no_duplicates(),
        forall|p: PathView| #[trigger] t.dom().contains(p) <==> order.contains(p),
        files.no_duplicates(),
        forall|f: PathView| #[trigger]
            files.contains(f) <==> t.dom().contains(f) && !t[f].is_directory,
    ensures
        token_totals::fits(t, order, counts) <==> sum_of(counts, files) <= usize::MAX,
{
    let all = order.filter(token_totals::is_file(t));
    lists::lemma_filter_members(order, token_totals::is_file(t));
    assert forall|f: PathView| #[trigger] all.contains(f) <==> files.contains(f) by {
        assert(t.dom().contains(f) <==> order.contains(f));
    }
    lemma_sum_in_any_order(counts, all, files);
    lemma_total_is_sum(counts, all);
}

/// Whether a path is one of the first thousand files of a list.
pub open spec fn in_first_thousand(files: Seq<PathView>, p: PathView) -> bool {
    exists|i: int| 0 <= i < files.len() && i < 1000 && #[trigger] files[i] == p
}

/// The files whose tokens are counted are the first thousand.
pub proof fn lemma_limited(files: Seq<PathView>, p: PathView)
    ensures
        token_totals::limited(files).contains(p) <==> in_first_thousand(files, p),
{
    let few = token_totals::limited(files);
    if few.contains(p) {
        assert(files[few.index_of(p)] == p);
    }
    if in_first_thousand(files, p) {
        let i = choose|i: int| 0 <= i < files.len() && i < 1000 && #[trigger] files[i] == p;
        assert(few[i] == p);
    }
}

/// The files that are handed over for counting are, once each, those of the first thousand that
/// have no count that is kept.
pub proof fn lemma_queue_holds_uncounted_files(
    t: TreeView,
    counts: CountsView,
    files: Seq<PathView>,
    p: PathView,
)
    ensures
        ({
            let queue = token_totals::queued_files(t, counts, files);
            &&& queue.no_duplicates()
            &&& queue.contains(p) <==> in_first_thousand(files, p) && !(counts.dom().contains(p)
                && keeps_count(t, p))
        }),
{
    let shown = token_totals::kept(t, counts);
    let few = token_totals::limited(files);
    let pred = token_totals::not_counted(shown);
    let fresh = token_totals::fresh_files(shown, files);
    let queue = token_totals::queued_files(t, counts, files);
    lemma_limited(files, p);
    lemma_counts_outlive_selection(t, counts, p);
    lists::lemma_filter_members(few, pred);
    token_totals::lemma_without_repeats(few.filter(pred), p);
    token_totals::lemma_batched_is_permutation(fresh);
    broadcast use vstd::seq_lib::group_to_multiset_ensures;

    assert(queue.to_multiset().count(p) == fresh.to_multiset().count(p));
    assert(few.filter(pred).contains(p) <==> few.contains(p) && pred(p));
    fresh.lemma_multiset_has_no_duplicates();
    assert(queue.no_duplicates()) by {
        queue.lemma_multiset_has_no_duplicates_conv();
    }
}

/// Queueing marks each file that is handed over as under way, gives each directory that shows a
/// count an entry, and drops the counts that are not kept.
pub proof fn lemma_queue_marks_files(
    t: TreeView,
    counts: CountsView,
    files: Seq<PathView>,
    p: PathView,
)
    ensures
        ({
            let after = token_totals::queued_counts(t, counts, files);
            let kept = counts.dom().contains(p) && keeps_count(t, p);
            let queued = token_totals::queued_files(t, counts, files).contains(p);
            &&& after.dom().contains(p) <==> kept || queued || counts_for(t, p)
            &&& kept ==> after[p] == counts[p]
            &&& queued ==> after[p] is None
            &&& !kept && !queued && counts_for(t, p) ==> after[p] == Some(0usize)
        }),
{
    let shown = token_totals::kept(t, counts);
    let fresh = token_totals::fresh_files(shown, files);
    let queue = token_totals::queued_files(t, counts, files);
    lemma_queue_holds_uncounted_files(t, counts, files, p);
    lemma_counts_outlive_selection(t, counts, p);
    lemma_counts_for(t, p);
    token_totals::lemma_batched_is_permutation(fresh);
    broadcast use vstd::seq_lib::group_to_multiset_ensures;

    assert(queue.to_multiset().count(p) == fresh.to_multiset().count(p));
}

/// Batching by directory: the files of one directory are handed over one right after the other.
proof fn lemma_batches_together(files: Seq<PathView>)
    ensures
        forall|i: int, j: int, k: int|
            0 <= i < j < k < token_totals::batches(files).len() && path::parent_of(
                #[trigger] token_totals::batches(files)[i],
            ) == path::parent_of(#[trigger] token_totals::batches(files)[k]) ==> path::parent_of(
                #[trigger] token_totals::batches(files)[j],
            ) == path::parent_of(token_totals::batches(files)[i]),
        forall|p: PathView| #[trigger]
            token_totals::batches(files).contains(p) <==> files.contains(p),
    decreases files.len(),
{
    if files.len() == 0 {
        assert(token_totals::batches(files) =~= Seq::empty());
        assert(files =~= Seq::empty());
    } else {
        let dir = path::parent_of(files[0]);
        let here = token_totals::has_the_parent(dir);
        let other = token_totals::has_other_parent(dir);
        let group = files.filter(here);
        let tail = files.drop_first();
        let rest = tail.filter(other);
        tail.lemma_filter_len(other);
        lemma_batches_together(rest);
        let after = token_totals::batches(rest);
        let all = token_totals::batches(files);
        assert(all =~= group + after);
        lists::lemma_filter_members(files, here);
        lists::lemma_filter_members(tail, other);
        assert forall|i: int| 0 <= i < all.len() implies (i < group.len() <==> path::parent_of(
            #[trigger] all[i],
        ) == dir) by {
            if i < group.len() {
                assert(group.contains(group[i]));
            } else {
                assert(after.contains(after[i - group.len()]));
                assert(rest.contains(after[i - group.len()]));
            }
        }
        assert forall|i: int, j: int, k: int|
            0 <= i < j < k < all.len() && path::parent_of(#[trigger] all[i]) == path::parent_of(
                #[trigger] all[k],
            ) implies path::parent_of(#[trigger] all[j]) == path::parent_of(all[i]) by {
            if i >= group.len() {
                assert(all[i] == after[i - group.len()]);
                assert(all[j] == after[j - group.len()]);
                assert(all[k] == after[k - group.len()]);
            }
        }
        assert forall|p: PathView| #[trigger] all.contains(p) <==> files.contains(p) by {
            if all.contains(p) {
                let i = all.index_of(p);
                if i < group.len() {
                    assert(group[i] == p);
                    assert(group.contains(p));
                } else {
                    assert(after[i - group.len()] == p);
                    assert(after.contains(p));
                    assert(rest.contains(p));
                    assert(tail.contains(p));
                    assert(files[tail.index_of(p) + 1] == p);
                }
            }
            if files.contains(p) {
                if here(p) {
                    assert(group.contains(p));
                    assert(all[group.index_of(p)] == p);
                } else {
                    let i = files.index_of(p);
                    assert(i != 0);
                    assert(tail[i - 1] == p);
                    assert(rest.contains(p) && after.contains(p));
                    assert(all[group.len() + after.index_of(p)] == p);
                }
            }
        }
    }
}

/// The files of one directory are handed over for counting one right after the other.
pub proof fn lemma_queue_keeps_directories_together(
    t: TreeView,
    counts: CountsView,
    files: Seq<PathView>,
    i: int,
    j: int,
    k: int,
)
    requires
        0 <= i < j < k < token_totals::queued_files(t, counts, files).len(),
        path::parent_of(token_totals::queued_files(t, counts, files)[i]) == path::parent_of(
            token_totals::queued_files(t, counts, files)[k],
        ),
    ensures
        path::parent_of(token_totals::queued_files(t, counts, files)[j]) == path::parent_of(
            token_totals::queued_files(t, counts, files)[i],
        ),
{
    let fresh = token_totals::fresh_files(token_totals::kept(t, counts), files);
    let queue = token_totals::queued_files(t, counts, files);
    let other = token_totals::has_other_parent(None);
    let none = token_totals::has_the_parent(None);
    let grouped = token_totals::batches(fresh.filter(other));
    let single = fresh.filter(none);
    lists::lemma_filter_members(fresh, other);
    lists::lemma_filter_members(fresh, none);
    lemma_batches_together(fresh.filter(other));
    assert(queue =~= grouped + single);
    assert forall|n: int| 0 <= n < queue.len() implies (n < grouped.len() <==> path::parent_of(
        #[trigger] queue[n],
    ) is Some) by {
        if n < grouped.len() {
            assert(grouped.contains(grouped[n]));
            assert(fresh.filter(other).contains(grouped[n]));
        } else {
            assert(single.contains(single[n - grouped.len()]));
        }
    }
    if k < grouped.len() {
        assert(queue[i] == grouped[i] && queue[j] == grouped[j] && queue[k] == grouped[k]);
    } else {
        assert(path::parent_of(queue[k]) is None);
        assert(i >= grouped.len());
        assert(path::parent_of(queue[j]) is None);
    }
}

proof fn lemma_unique_stays<A>(s: Seq<A>)
    requires
        s.no_duplicates(),
    ensures
        forall|i: int| 0 <= i < s.len() ==> s.index_of(#[trigger] s[i]) == i,
{
    assert forall|i: int| 0 <= i < s.len() implies s.index_of(#[trigger] s[i]) == i by {
        assert(s.contains(s[i]));
        assert(s[s.index_of(s[i])] == s[i]);
    }
}

/// Whether the items of a list that have the same parent stand in the order of another list.
spec fn keeps_order(list: Seq<PathView>, all: Seq<PathView>) -> bool {
    forall|i: int, j: int|
        0 <= i < j < list.len() && path::parent_of(#[trigger] list[i]) == path::parent_of(
            #[trigger] list[j],
        ) ==> all.index_of(list[i]) < all.index_of(list[j])
}

proof fn lemma_filter_keeps_order(
    s: Seq<PathView>,
    pred: spec_fn(PathView) -> bool,
    all: Seq<PathView>,
)
    requires
        forall|i: int, j: int|
            0 <= i < j < s.len() ==> all.index_of(#[trigger] s[i]) < all.index_of(#[trigger] s[j]),
    ensures
        forall|i: int, j: int|
            0 <= i < j < s.filter(pred).len() ==> all.index_of(#[trigger] s.filter(pred)[i])
                < all.index_of(#[trigger] s.filter(pred)[j]),
{
    let places = lists::lemma_filter_places(s, pred);
    let kept = s.filter(pred);
    assert forall|i: int, j: int| 0 <= i < j < kept.len() implies all.index_of(
        #[trigger] kept[i],
    ) < all.index_of(#[trigger] kept[j]) by {
        assert(s[places[i]] == kept[i]);
        assert(s[places[j]] == kept[j]);
        assert(places[i] < places[j]);
    }
}

proof fn lemma_batches_keep_order(files: Seq<PathView>, all: Seq<PathView>)
    requires
        forall|i: int, j: int|
            0 <= i < j < files.len() ==> all.index_of(#[trigger] files[i]) < all.index_of(
                #[trigger] files[j],
            ),
    ensures
        keeps_order(token_totals::batches(files), all),
    decreases files.len(),
{
    if files.len() > 0 {
        let dir = path::parent_of(files[0]);
        let here = token_totals::has_the_parent(dir);
        let other = token_totals::has_other_parent(dir);
        let group = files.filter(here);
        let tail = files.drop_first();
        let rest = tail.filter(other);
        let after = token_totals::batches(rest);
        let list = token_totals::batches(files);
        tail.lemma_filter_len(other);
        assert(list =~= group + after);
        lemma_filter_keeps_order(files, here, all);
        assert forall|i: int, j: int| 0 <= i < j < tail.len() implies all.index_of(
            #[trigger] tail[i],
        ) < all.index_of(#[trigger] tail[j]) by {
            assert(tail[i] == files[i + 1] && tail[j] == files[j + 1]);
        }
        lemma_filter_keeps_order(tail, other, all);
        lemma_batches_keep_order(rest, all);
        lemma_batches_together(rest);
        lists::lemma_filter_members(files, here);
        lists::lemma_filter_members(tail, other);
        assert forall|i: int| 0 <= i < list.len() implies (i < group.len() <==> path::parent_of(
            #[trigger] list[i],
        ) == dir) by {
            if i < group.len() {
                assert(group.contains(group[i]));
            } else {
                assert(after.contains(after[i - group.len()]));
                assert(rest.contains(after[i - group.len()]));
            }
        }
        assert forall|i: int, j: int|
            0 <= i < j < list.len() && path::parent_of(#[trigger] list[i]) == path::parent_of(
                #[trigger] list[j],
            ) implies all.index_of(list[i]) < all.index_of(list[j]) by {
            if j < group.len() {
                assert(list[i] == group[i] && list[j] == group[j]);
            } else {
                assert(i >= group.len());
                assert(list[i] == after[i - group.len()] && list[j] == after[j - group.len()]);
            }
        }
    }
}

proof fn lemma_no_repeats_to_drop(files: Seq<PathView>)
    requires
        files.no_duplicates(),
    ensures
        token_totals::without_repeats(files) == files,
    decreases files.len(),
{
    if files.len() > 0 {
        let rest = files.drop_last();
        lemma_no_repeats_to_drop(rest);
        assert(!rest.contains(files.last())) by {
            if rest.contains(files.last()) {
                assert(files[rest.index_of(files.last())] == files[files.len() - 1]);
            }
        }
        assert(rest.push(files.last()) =~= files);
    }
}

/// The files of one directory are handed over for counting in the order of the list, and those
/// without a directory after all others.
pub proof fn lemma_queue_keeps_order(
    t: TreeView,
    counts: CountsView,
    files: Seq<PathView>,
    i: int,
    j: int,
)
    requires
        files.no_duplicates(),
        0 <= i < j < token_totals::queued_files(t, counts, files).len(),
    ensures
        ({
            let queue = token_totals::queued_files(t, counts, files);
            &&& path::parent_of(queue[i]) == path::parent_of(queue[j]) ==> files.index_of(queue[i])
                < files.index_of(queue[j])
            &&& path::parent_of(queue[i]) is None ==> path::parent_of(queue[j]) is None
        }),
{
    let few = token_totals::limited(files);
    let pred = token_totals::not_counted(token_totals::kept(t, counts));
    let fresh = token_totals::fresh_files(token_totals::kept(t, counts), files);
    let queue = token_totals::queued_files(t, counts, files);
    let other = token_totals::has_other_parent(None);
    let none = token_totals::has_the_parent(None);
    let grouped = token_totals::batches(fresh.filter(other));
    let single = fresh.filter(none);
    lemma_unique_stays(files);
    assert forall|a: int| 0 <= a < few.len() implies files.index_of(#[trigger] few[a]) == a by {
        assert(few[a] == files[a]);
    }
    assert(few.no_duplicates()) by {
        assert forall|a: int, b: int|
            0 <= a < few.len() && 0 <= b < few.len() && a != b implies few[a] != few[b] by {
            assert(files.index_of(few[a]) == a);
            assert(files.index_of(few[b]) == b);
        }
    }
    lists::lemma_filter_members(few, pred);
    lemma_no_repeats_to_drop(few.filter(pred));
    assert(fresh == few.filter(pred));
    lemma_filter_keeps_order(few, pred, files);
    lemma_filter_keeps_order(fresh, other, files);
    lemma_filter_keeps_order(fresh, none, files);
    lemma_batches_keep_order(fresh.filter(other), files);
    lemma_batches_together(fresh.filter(other));
    lists::lemma_filter_members(fresh, other);
    lists::lemma_filter_members(fresh, none);
    assert(queue =~= grouped + single);
    assert forall|n: int| 0 <= n < queue.len() implies (n < grouped.len() <==> path::parent_of(
        #[trigger] queue[n],
    ) is Some) by {
        if n < grouped.len() {
            assert(grouped.contains(grouped[n]));
            assert(fresh.filter(other).contains(grouped[n]));
        } else {
            assert(single.contains(single[n - grouped.len()]));
        }
    }
    if path::parent_of(queue[i]) == path::parent_of(queue[j]) {
        if j < grouped.len() {
            assert(queue[i] == grouped[i] && queue[j] == grouped[j]);
        } else {
            assert(i >= grouped.len());
            assert(queue[i] == single[i - grouped.len()] && queue[j] == single[j - grouped.len()]);
        }
    }
}

/// What an update leaves of a path: a directory that shows a count has the sum of its files, a
/// selected file keeps the count that it has, one of the first thousand without a count is under
/// way, and nothing else has an entry.
pub proof fn lemma_update_of_path(
    t: TreeView,
    order: Seq<PathView>,
    counts: CountsView,
    p: PathView,
    inside: Seq<PathView>,
)
    requires
        order.no_duplicates(),
        forall|q: PathView| #[trigger] t.dom().contains(q) <==> order.contains(q),
        inside.no_duplicates(),
        forall|f: PathView| #[trigger] inside.contains(f) <==> picked(t, f) && lies_inside(p, f),
        sum_of(counts, inside) <= usize::MAX,
    ensures
        ({
            let c = token_totals::updated_counts(t, order, counts);
            let queue = token_totals::updated_requests(t, order, counts);
            let early = in_first_thousand(file_utils::selected_files(t, order), p);
            &&& counts_for(t, p) ==> c.dom().contains(p) && c[p] == Some(
                sum_of(counts, inside) as usize,
            )
            &&& picked(t, p) && counts.dom().contains(p) ==> c.dom().contains(p) && c[p]
                == counts[p]
            &&& picked(t, p) && !counts.dom().contains(p) && early ==> c.dom().contains(p)
                && c[p] is None
            &&& c.dom().contains(p) ==> counts_for(t, p) || (picked(t, p) && (counts.dom().contains(
                p,
            ) || early))
            &&& queue.no_duplicates()
            &&& queue.contains(p) <==> picked(t, p) && !counts.dom().contains(p) && early
        }),
{
    let chosen = file_utils::selected_files(t, order);
    let base = token_totals::with_dir_totals(t, order, token_totals::kept(t, counts));
    lemma_counts_for(t, p);
    lemma_limited(chosen, p);
    token_totals::lemma_updated_counts(t, order, counts, p);
    let files = lemma_files_of_directory(t, order, p);
    assert forall|f: PathView| #[trigger] files.contains(f) <==> inside.contains(f) by {}
    lemma_sum_in_any_order(counts, files, inside);
    lemma_total_is_sum(counts, files);
    lemma_queue_holds_uncounted_files(t, base, chosen, p);
    lemma_counts_outlive_selection(t, counts, p);
    lists::lemma_filter_members(order, file_utils::selected_file(t));
    assert(chosen.contains(p) <==> picked(t, p)) by {
        assert(t.dom().contains(p) <==> order.contains(p));
    }
    if in_first_thousand(chosen, p) {
        assert(chosen.contains(p));
    }
}

/// The tokens of the whole selection are the sum of what is known of the selected files, in
/// whatever order they are taken.
pub proof fn lemma_selection_total_is_sum(
    t: TreeView,
    order: Seq<PathView>,
    counts: CountsView,
    files: Seq<PathView>,
)
    requires
        order.no_duplicates(),
        forall|p: PathView| #[trigger] t.dom().contains(p) <==> order.contains(p),
        files.no_duplicates(),
        forall|f: PathView| #[trigger] files.contains(f) <==> picked(t, f),
    ensures
        token_totals::total(counts, file_utils::selected_files(t, order)) == sum_of(counts, files),
{
    let chosen = file_utils::selected_files(t, order);
    lists::lemma_filter_members(order, file_utils::selected_file(t));
    assert forall|f: PathView| #[trigger] chosen.contains(f) <==> files.contains(f) by {
        assert(t.dom().contains(f) <==> order.contains(f));
    }
    lemma_sum_in_any_order(counts, chosen, files);
    lemma_total_is_sum(counts, chosen);
}

/// A directory that shows a count has an entry from the start, zero where it had none; nothing else
/// changes.
pub proof fn lemma_directories_start_at_zero(t: TreeView, counts: CountsView, p: PathView)
    ensures
        ({
            let after = token_totals::with_missing_directories(t, counts);
            &&& counts.dom().contains(p) ==> after.dom().contains(p) && after[p] == counts[p]
            &&& !counts.dom().contains(p) && counts_for(t, p) ==> after.dom().contains(p)
                && after[p] == Some(0usize)
            &&& !counts.dom().contains(p) && !counts_for(t, p) ==> !after.dom().contains(p)
        }),
{
    lemma_counts_for(t, p);
}

/// The files that become pending are, once each and in their order, those of the first thousand
/// without an entry.
pub proof fn lemma_pending_files(counts: CountsView, files: Seq<PathView>, p: PathView)
    ensures
        ({
            let fresh = token_totals::fresh_files(counts, files);
            &&& fresh.no_duplicates()
            &&& fresh.contains(p) <==> in_first_thousand(files, p) && !counts.dom().contains(p)
        }),
{
    let few = token_totals::limited(files);
    let pred = token_totals::not_counted(counts);
    lemma_limited(files, p);
    lists::lemma_filter_members(few, pred);
    token_totals::lemma_without_repeats(few.filter(pred), p);
    assert(few.filter(pred).contains(p) <==> few.contains(p) && pred(p));
}

} // verus!
