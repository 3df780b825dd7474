//! Token counts of files and directories: what is shown, what is summed up, what is still to count.

use vstd::prelude::*;
use vstd::string::*;

use crate::file_utils;
use crate::path;
use crate::path::{FilePath, PathView};
use crate::path_map::{PathMap, PathSet};
use crate::tree_laws;
use crate::types::{FileTree, TreeView};

verus! {

/// The token counts: each path with its count, or with none while the count is under way.
pub type TokenCounts = PathMap<Option<usize>>;

/// The mathematical value of [`TokenCounts`].
pub type CountsView = Map<PathView, Option<usize>>;

/// Whether a count is shown for the path: it is selected, or it is a directory with something
/// selected below it.
pub open spec fn shows_count(t: TreeView, p: PathView) -> bool {
    t.dom().contains(p) && (t[p].is_selected || (t[p].is_directory
        && file_utils::has_selected_below(t, p)))
}

/// Whether a count is shown for the path and the path is a directory.
pub open spec fn shows_directory(t: TreeView, p: PathView) -> bool {
    shows_count(t, p) && t[p].is_directory
}

/// The tokens that are known of a path, none where the count is missing or under way.
pub open spec fn known_count(counts: CountsView, p: PathView) -> nat {
    if counts.dom().contains(p) && counts[p] is Some {
        counts[p]->0 as nat
    } else {
        0
    }
}

/// The tokens that are known of a list of files.
pub open spec fn total(counts: CountsView, files: Seq<PathView>) -> nat
    decreases files.len(),
{
    if files.len() == 0 {
        0
    } else {
        total(counts, files.drop_last()) + known_count(counts, files.last())
    }
}

/// Whether the node at a path is a file.
pub open spec fn is_file(t: TreeView) -> spec_fn(PathView) -> bool {
    |p: PathView| !t[p].is_directory
}

/// The known tokens of all files of the tree, selected or not, are within the range of a count.
pub open spec fn fits(t: TreeView, order: Seq<PathView>, counts: CountsView) -> bool {
    total(counts, order.filter(is_file(t))) <= usize::MAX
}

/// Whether a file lies in the directory, at any depth.
pub open spec fn lies_in(dir: PathView) -> spec_fn(PathView) -> bool {
    |f: PathView| path::is_ancestor(dir, f)
}

/// The known tokens of the selected files in a directory.
pub open spec fn dir_total(
    t: TreeView,
    order: Seq<PathView>,
    counts: CountsView,
    dir: PathView,
) -> nat {
    total(counts, file_utils::selected_files(t, order).filter(lies_in(dir)))
}

/// The counts with a new sum for each directory that shows one.
pub open spec fn with_dir_totals(
    t: TreeView,
    order: Seq<PathView>,
    counts: CountsView,
) -> CountsView {
    Map::new(
        |p: PathView| counts.dom().contains(p) || shows_directory(t, p),
        |p: PathView|
            if shows_directory(t, p) {
                Some(dir_total(t, order, counts, p) as usize)
            } else {
                counts[p]
            },
    )
}

/// The counts that are shown.
pub open spec fn kept(t: TreeView, counts: CountsView) -> CountsView {
    counts.restrict(Set::new(|p: PathView| shows_count(t, p)))
}

/// Whether a directory gains from the tokens of a file.
pub open spec fn gains(t: TreeView, p: PathView, file: PathView) -> bool {
    path::is_ancestor(p, file) && shows_directory(t, p)
}

/// The counts with the tokens of a file added to each directory that gains from it and has at
/// least `from` components.
pub open spec fn with_added(
    t: TreeView,
    counts: CountsView,
    file: PathView,
    tokens: nat,
    from: nat,
) -> CountsView {
    Map::new(
        |p: PathView| counts.dom().contains(p) || (gains(t, p, file) && p.len() >= from),
        |p: PathView|
            if gains(t, p, file) && p.len() >= from {
                Some((known_count(counts, p) + tokens) as usize)
            } else {
                counts[p]
            },
    )
}

/// The first thousand of a list of files. The tokens of more files are not counted.
pub open spec fn limited(files: Seq<PathView>) -> Seq<PathView> {
    if files.len() > 1000 {
        files.take(1000)
    } else {
        files
    }
}

/// Whether a path has no entry in the counts.
pub open spec fn not_counted(counts: CountsView) -> spec_fn(PathView) -> bool {
    |f: PathView| !counts.dom().contains(f)
}

/// The list without repeats: of each path the first place stays.
pub open spec fn without_repeats(files: Seq<PathView>) -> Seq<PathView>
    decreases files.len(),
{
    if files.len() == 0 {
        Seq::empty()
    } else {
        let before = without_repeats(files.drop_last());
        if before.contains(files.last()) {
            before
        } else {
            before.push(files.last())
        }
    }
}

/// The files whose tokens are to be counted now.
pub open spec fn fresh_files(counts: CountsView, files: Seq<PathView>) -> Seq<PathView> {
    without_repeats(limited(files).filter(not_counted(counts)))
}

/// The counts with an entry without a count for each file of the list.
pub open spec fn with_pending(counts: CountsView, files: Seq<PathView>) -> CountsView {
    Map::new(
        |p: PathView| counts.dom().contains(p) || files.contains(p),
        |p: PathView|
            if files.contains(p) {
                None
            } else {
                counts[p]
            },
    )
}

/// The counts with a zero for each directory that shows a count and has no entry.
pub open spec fn with_missing_directories(t: TreeView, counts: CountsView) -> CountsView {
    Map::new(
        |p: PathView| counts.dom().contains(p) || shows_directory(t, p),
        |p: PathView|
            if counts.dom().contains(p) {
                counts[p]
            } else {
                Some(0usize)
            },
    )
}

/// Whether a file has the parent `dir`.
pub open spec fn has_the_parent(dir: Option<PathView>) -> spec_fn(PathView) -> bool {
    |f: PathView| path::parent_of(f) == dir
}

/// Whether a file has another parent than `dir`.
pub open spec fn has_other_parent(dir: Option<PathView>) -> spec_fn(PathView) -> bool {
    |f: PathView| path::parent_of(f) != dir
}

/// The files, directory by directory, in the order in which the directories first occur.
pub open spec fn batches(files: Seq<PathView>) -> Seq<PathView>
    decreases files.len(),
{
    if files.len() == 0 {
        Seq::empty()
    } else {
        let dir = path::parent_of(files[0]);
        proof {
            files.drop_first().lemma_filter_len(has_other_parent(dir));
        }
        files.filter(has_the_parent(dir)) + batches(
            files.drop_first().filter(has_other_parent(dir)),
        )
    }
}

/// The order in which the files are handed over for counting: directory by directory, and at the
/// end those that have no directory.
pub open spec fn batched(files: Seq<PathView>) -> Seq<PathView> {
    batches(files.filter(has_other_parent(None))) + files.filter(has_the_parent(None))
}

/// The counts once the counting of `files` has been queued.
pub open spec fn queued_counts(t: TreeView, counts: CountsView, files: Seq<PathView>) -> CountsView {
    with_missing_directories(
        t,
        with_pending(kept(t, counts), fresh_files(kept(t, counts), files)),
    )
}

/// The files that are handed over for counting.
pub open spec fn queued_files(t: TreeView, counts: CountsView, files: Seq<PathView>) -> Seq<
    PathView,
> {
    batched(fresh_files(kept(t, counts), files))
}

proof fn lemma_total_push(counts: CountsView, files: Seq<PathView>, f: PathView)
    ensures
        total(counts, files.push(f)) == total(counts, files) + known_count(counts, f),
{
    assert(files.push(f).drop_last() =~= files);
}

proof fn lemma_total_take(counts: CountsView, files: Seq<PathView>, i: int)
    requires
        0 <= i < files.len(),
    ensures
        total(counts, files.take(i + 1)) == total(counts, files.take(i)) + known_count(
            counts,
            files[i],
        ),
        total(counts, files.take(i + 1)) <= total(counts, files),
    decreases files.len() - i,
{
    assert(files.take(i + 1).drop_last() =~= files.take(i));
    if i + 1 < files.len() {
        lemma_total_take(counts, files, i + 1);
    } else {
        assert(files.take(i + 1) =~= files);
    }
}

/// A part of the files has no more tokens than all of them.
pub(crate) proof fn lemma_total_filter(
    counts: CountsView,
    files: Seq<PathView>,
    few: spec_fn(PathView) -> bool,
    many: spec_fn(PathView) -> bool,
)
    requires
        forall|i: int| 0 <= i < files.len() && few(files[i]) ==> many(#[trigger] files[i]),
    ensures
        total(counts, files.filter(few)) <= total(counts, files.filter(many)),
    decreases files.len(),
{
    reveal(Seq::filter);
    if files.len() > 0 {
        let rest = files.drop_last();
        assert forall|i: int| 0 <= i < rest.len() && few(rest[i]) implies many(
            #[trigger] rest[i],
        ) by {
            assert(files[i] == rest[i]);
        }
        lemma_total_filter(counts, rest, few, many);
        let f = files.last();
        assert(files[files.len() - 1] == f);
        lemma_total_push(counts, rest.filter(few), f);
        lemma_total_push(counts, rest.filter(many), f);
    }
}

/// A part of the files has no more tokens than the whole list.
pub(crate) proof fn lemma_total_part(
    counts: CountsView,
    files: Seq<PathView>,
    few: spec_fn(PathView) -> bool,
)
    ensures
        total(counts, files.filter(few)) <= total(counts, files),
    decreases files.len(),
{
    reveal(Seq::filter);
    if files.len() > 0 {
        lemma_total_part(counts, files.drop_last(), few);
        lemma_total_push(counts, files.drop_last().filter(few), files.last());
    }
}

/// Fewer known tokens of each file make a smaller sum.
pub(crate) proof fn lemma_total_monotone(less: CountsView, more: CountsView, files: Seq<PathView>)
    requires
        forall|i: int|
            0 <= i < files.len() ==> known_count(less, #[trigger] files[i]) <= known_count(
                more,
                files[i],
            ),
    ensures
        total(less, files) <= total(more, files),
    decreases files.len(),
{
    if files.len() > 0 {
        let rest = files.drop_last();
        assert forall|i: int| 0 <= i < rest.len() implies known_count(less, #[trigger] rest[i])
            <= known_count(more, rest[i]) by {
            assert(files[i] == rest[i]);
        }
        lemma_total_monotone(less, more, rest);
        assert(files[files.len() - 1] == files.last());
    }
}

/// Two tests that agree on a list pick the same items of it.
pub(crate) proof fn lemma_filter_agree(
    files: Seq<PathView>,
    one: spec_fn(PathView) -> bool,
    other: spec_fn(PathView) -> bool,
)
    requires
        forall|i: int| 0 <= i < files.len() ==> one(#[trigger] files[i]) == other(files[i]),
    ensures
        files.filter(one) == files.filter(other),
    decreases files.len(),
{
    reveal(Seq::filter);
    if files.len() > 0 {
        let rest = files.drop_last();
        assert forall|i: int| 0 <= i < rest.len() implies one(#[trigger] rest[i]) == other(
            rest[i],
        ) by {
            assert(files[i] == rest[i]);
        }
        lemma_filter_agree(rest, one, other);
        assert(files[files.len() - 1] == files.last());
    }
}

/// The selected files have no more tokens than all files of the tree.
pub(crate) proof fn lemma_selected_total(t: TreeView, order: Seq<PathView>, counts: CountsView)
    ensures
        total(counts, file_utils::selected_files(t, order)) <= total(
            counts,
            order.filter(is_file(t)),
        ),
{
    lemma_total_filter(counts, order, file_utils::selected_file(t), is_file(t));
}

/// The known tokens of the selected files.
pub fn selected_total(tree: &FileTree, counts: &TokenCounts) -> (r: usize)
    requires
        tree.wf(),
        counts.wf(),
        fits(tree@, tree.keys(), counts@),
    ensures
        r == total(counts@, file_utils::selected_files(tree@, tree.keys())),
{
    let files = file_utils::get_selected_files(tree);
    let ghost list = path::paths(files@);
    proof {
        lemma_selected_total(tree@, tree.keys(), counts@);
    }
    let mut sum: usize = 0;
    let mut i: usize = 0;
    while i < files.len()
        invariant
            counts.wf(),
            i <= files@.len(),
            list == path::paths(files@),
            total(counts@, list) <= usize::MAX,
            sum == total(counts@, list.take(i as int)),
        decreases files.len() - i,
    {
        proof {
            lemma_total_take(counts@, list, i as int);
        }
        if let Some(found) = counts.get(&files[i]) {
            if let Some(count) = found {
                sum = sum + *count;
            }
        }
        i = i + 1;
    }
    assert(list.take(i as int) =~= list);
    sum
}

/// Whether a count is shown for the path, from the map of directories with selected descendants.
fn is_shown(tree: &FileTree, dir_descendants_map: &PathMap<bool>, path: &FilePath) -> (r: bool)
    requires
        tree.wf(),
        dir_descendants_map.wf(),
        dir_descendants_map@ == file_utils::descendants_map(tree@),
    ensures
        r == shows_count(tree@, path@),
{
    match tree.get(path) {
        None => false,
        Some(node) => {
            if node.is_selected {
                true
            } else if node.is_directory {
                match dir_descendants_map.get(path) {
                    Some(below) => *below,
                    None => false,
                }
            } else {
                false
            }
        },
    }
}

/// Whether a count is shown for the path and the path is a directory.
fn is_shown_directory(
    tree: &FileTree,
    dir_descendants_map: &PathMap<bool>,
    path: &FilePath,
) -> (r: bool)
    requires
        tree.wf(),
        dir_descendants_map.wf(),
        dir_descendants_map@ == file_utils::descendants_map(tree@),
    ensures
        r == shows_directory(tree@, path@),
{
    match tree.get(path) {
        None => false,
        Some(node) => node.is_directory && is_shown(tree, dir_descendants_map, path),
    }
}

/// The counts that are shown.
pub fn keep_shown(tree: &FileTree, counts: &TokenCounts) -> (r: TokenCounts)
    requires
        tree.wf(),
        counts.wf(),
    ensures
        r.wf(),
        r@ == kept(tree@, counts@),
{
    let dir_descendants_map = file_utils::build_directories_with_descendants_map(tree);
    let mut r: TokenCounts = PathMap::new();
    let mut i: usize = 0;
    while i < counts.len()
        invariant
            tree.wf(),
            counts.wf(),
            r.wf(),
            dir_descendants_map.wf(),
            dir_descendants_map@ == file_utils::descendants_map(tree@),
            i <= counts.keys().len(),
            forall|p: PathView| #[trigger]
                r@.dom().contains(p) <==> counts.keys().take(i as int).contains(p) && shows_count(
                    tree@,
                    p,
                ),
            forall|p: PathView| #[trigger] r@.dom().contains(p) ==> r@[p] == counts@[p],
        decreases counts.keys().len() - i,
    {
        let ghost key = counts.keys()[i as int];
        if is_shown(tree, &dir_descendants_map, counts.key_at(i)) {
            r.insert(counts.key_at(i).clone(), *counts.value_at(i));
        }
        proof {
            lemma_take_contains(counts.keys(), i as int);
        }
        i = i + 1;
    }
    proof {
        counts.lemma_keys();
        assert(counts.keys().take(i as int) =~= counts.keys());
        assert(r@ =~= kept(tree@, counts@));
    }
    r
}

pub(crate) proof fn lemma_take_contains(s: Seq<PathView>, i: int)
    requires
        0 <= i < s.len(),
    ensures
        forall|p: PathView| #[trigger]
            s.take(i + 1).contains(p) <==> s.take(i).contains(p) || p == s[i],
{
    let n = s.take(i);
    let m = s.take(i + 1);
    assert(m =~= n.push(s[i]));
    assert forall|p: PathView| #[trigger] m.contains(p) <==> n.contains(p) || p == s[i] by {
        if n.contains(p) {
            assert(m[n.index_of(p)] == p);
        }
        if m.contains(p) && p != s[i] {
            assert(n[m.index_of(p)] == p);
        }
        assert(m[i] == s[i]);
    }
}

/// Adds a file's token count to parent directories that should show token counts.
/// Includes both selected directories and directories with selected descendants.
pub fn add_file_tokens_to_directories_with_selections(
    tree: &FileTree,
    counts: &mut TokenCounts,
    file_path: &FilePath,
    file_tokens: usize,
    dir_descendants_map: &PathMap<bool>,
)
    requires
        tree.wf(),
        old(counts).wf(),
        dir_descendants_map.wf(),
        dir_descendants_map@ == file_utils::descendants_map(tree@),
        forall|p: PathView| #[trigger]
            gains(tree@, p, file_path@) ==> known_count(old(counts)@, p) + file_tokens
                <= usize::MAX,
    ensures
        final(counts).wf(),
        final(counts)@ == with_added(
            tree@,
            old(counts)@,
            file_path@,
            file_tokens as nat,
            0,
        ),
{
    let ghost f = file_path@;
    let ghost start = counts@;
    let ghost mut k: nat = f.len();
    let mut current = file_path.parent();
    assert(counts@ =~= with_added(tree@, start, f, file_tokens as nat, k));
    assert(f.take(k as int) =~= f);
    loop
        invariant
            tree.wf(),
            counts.wf(),
            dir_descendants_map.wf(),
            dir_descendants_map@ == file_utils::descendants_map(tree@),
            f == file_path@,
            forall|p: PathView| #[trigger]
                gains(tree@, p, f) ==> known_count(start, p) + file_tokens <= usize::MAX,
            k <= f.len(),
            counts@ == with_added(tree@, start, f, file_tokens as nat, k),
            forall|i: int| k <= i < f.len() ==> (#[trigger] f[i]).has_parent(),
            match current {
                Some(c) => path::parent_of(f.take(k as int)) == Some(c@),
                None => path::parent_of(f.take(k as int)) is None,
            },
        ensures
            counts@ == with_added(tree@, start, f, file_tokens as nat, 0),
            counts.wf(),
        decreases k,
    {
        let parent = match current {
            Some(parent) => parent,
            None => {
                proof {
                    assert forall|p: PathView| #[trigger] gains(tree@, p, f) implies p.len() >= k by {
                        if p.len() < k {
                            assert(f.take(k as int).last() == f[k - 1]);
                        }
                    }
                    assert(counts@ =~= with_added(tree@, start, f, file_tokens as nat, 0));
                }
                break;
            },
        };
        let ghost here = (k - 1) as nat;
        assert(f.take(k as int).last() == f[k - 1]);
        assert(parent@ =~= f.take(here as int));
        assert(path::is_ancestor(parent@, f));
        if is_shown_directory(tree, dir_descendants_map, &parent) {
            assert(gains(tree@, parent@, f));
            let known: usize = match counts.get(&parent) {
                Some(found) => match found {
                    Some(c) => *c,
                    None => 0,
                },
                None => 0,
            };
            assert(known == known_count(start, parent@));
            counts.insert(parent.clone(), Some(known + file_tokens));
        }
        proof {
            let wanted = with_added(tree@, start, f, file_tokens as nat, here);
            assert forall|p: PathView| gains(tree@, p, f) && p.len() >= here implies p == parent@
                || p.len() >= k by {
                if p.len() == here {
                    assert(p =~= f.take(here as int));
                }
            }
            assert(counts@ =~= wanted);
            k = here;
        }
        current = parent.parent();
    }
}

/// The counts with, for each directory that shows one, the sum over the part `files` of the
/// selected files.
spec fn with_sums(t: TreeView, counts: CountsView, files: Seq<PathView>) -> CountsView {
    Map::new(
        |p: PathView| counts.dom().contains(p) || shows_directory(t, p),
        |p: PathView|
            if shows_directory(t, p) {
                Some(total(counts, files.filter(lies_in(p))) as usize)
            } else {
                counts[p]
            },
    )
}

proof fn lemma_filter_empty(pred: spec_fn(PathView) -> bool)
    ensures
        Seq::<PathView>::empty().filter(pred) == Seq::<PathView>::empty(),
{
    reveal(Seq::filter);
}

/// Sets the count of each directory that shows one to zero.
fn reset_directories(
    tree: &FileTree,
    counts: &mut TokenCounts,
    dir_descendants_map: &PathMap<bool>,
)
    requires
        tree.wf(),
        old(counts).wf(),
        dir_descendants_map.wf(),
        dir_descendants_map@ == file_utils::descendants_map(tree@),
    ensures
        final(counts).wf(),
        final(counts)@ == with_sums(tree@, old(counts)@, Seq::empty()),
{
    let ghost start = counts@;
    let mut i: usize = 0;
    while i < tree.len()
        invariant
            tree.wf(),
            counts.wf(),
            dir_descendants_map.wf(),
            dir_descendants_map@ == file_utils::descendants_map(tree@),
            i <= tree.keys().len(),
            forall|p: PathView| #[trigger]
                counts@.dom().contains(p) <==> start.dom().contains(p) || (tree.keys().take(
                    i as int,
                ).contains(p) && shows_directory(tree@, p)),
            forall|p: PathView| #[trigger]
                counts@.dom().contains(p) ==> counts@[p] == (if tree.keys().take(i as int).contains(
                    p,
                ) && shows_directory(tree@, p) {
                    Some(0usize)
                } else {
                    start[p]
                }),
        decreases tree.keys().len() - i,
    {
        let key = tree.key_at(i);
        if is_shown_directory(tree, dir_descendants_map, key) {
            counts.insert(key.clone(), Some(0));
        }
        proof {
            lemma_take_contains(tree.keys(), i as int);
        }
        i = i + 1;
    }
    proof {
        tree.lemma_keys();
        assert(tree.keys().take(i as int) =~= tree.keys());
        assert forall|p: PathView| total(
            start,
            #[trigger] Seq::<PathView>::empty().filter(lies_in(p)),
        ) == 0 by {
            lemma_filter_empty(lies_in(p));
        }
        assert(counts@ =~= with_sums(tree@, start, Seq::empty()));
    }
}

/// Recalculates directory token counts from scratch based on currently selected files.
pub fn recalculate_directory_token_counts(tree: &FileTree, counts: &mut TokenCounts)
    requires
        tree.wf(),
        old(counts).wf(),
        fits(tree@, tree.keys(), old(counts)@),
    ensures
        final(counts).wf(),
        final(counts)@ == with_dir_totals(tree@, tree.keys(), old(counts)@),
{
    let dir_descendants_map = file_utils::build_directories_with_descendants_map(tree);
    let ghost start = counts@;
    reset_directories(tree, counts, &dir_descendants_map);
    let files = file_utils::get_selected_files(tree);
    let ghost list = path::paths(files@);
    proof {
        lemma_selected_total(tree@, tree.keys(), start);
        assert(list.take(0) =~= Seq::empty());
    }
    let mut i: usize = 0;
    while i < files.len()
        invariant
            tree.wf(),
            counts.wf(),
            dir_descendants_map.wf(),
            dir_descendants_map@ == file_utils::descendants_map(tree@),
            i <= files@.len(),
            list == path::paths(files@),
            list == file_utils::selected_files(tree@, tree.keys()),
            total(start, list) <= usize::MAX,
            counts@ == with_sums(tree@, start, list.take(i as int)),
        decreases files.len() - i,
    {
        let ghost f = list[i as int];
        let ghost before = list.take(i as int);
        let ghost after = list.take(i + 1);
        proof {
            tree_laws::lemma_selected_files_once(tree@, tree.keys(), f);
            assert(list.contains(f));
            assert(!shows_directory(tree@, f));
            lemma_total_take(start, list, i as int);
            assert forall|p: PathView| total(start, #[trigger] after.filter(lies_in(p))) == total(
                start,
                before.filter(lies_in(p)),
            ) + (if path::is_ancestor(p, f) {
                known_count(start, f)
            } else {
                0
            }) && total(start, after.filter(lies_in(p))) <= usize::MAX by {
                file_utils::lemma_filter_step(list, lies_in(p), i as int);
                lemma_total_push(start, before.filter(lies_in(p)), f);
                lemma_total_part(start, after, lies_in(p));
            }
        }
        let known: Option<usize> = match counts.get(&files[i]) {
            Some(found) => *found,
            None => None,
        };
        if let Some(tokens) = known {
            proof {
                assert forall|p: PathView| #[trigger] gains(tree@, p, f) implies known_count(
                    counts@,
                    p,
                ) + tokens <= usize::MAX by {
                    assert(total(start, after.filter(lies_in(p))) <= usize::MAX);
                }
            }
            add_file_tokens_to_directories_with_selections(
                tree,
                counts,
                &files[i],
                tokens,
                &dir_descendants_map,
            );
        }
        proof {
            let wanted = with_sums(tree@, start, after);
            assert forall|p: PathView| shows_directory(tree@, p) implies counts@.dom().contains(p)
                && counts@[p] == wanted[p] by {
                assert(total(start, after.filter(lies_in(p))) <= usize::MAX);
            }
            assert(counts@ =~= wanted);
        }
        i = i + 1;
    }
    proof {
        assert(list.take(i as int) =~= list);
        assert(counts@ =~= with_dir_totals(tree@, tree.keys(), start));
    }
}

/// Queues directory token calculations for directories that should show counts.
pub fn queue_directory_calculations(tree: &FileTree, counts: &mut TokenCounts)
    requires
        tree.wf(),
        old(counts).wf(),
    ensures
        final(counts).wf(),
        final(counts)@ == with_missing_directories(tree@, old(counts)@),
{
    let dir_descendants_map = file_utils::build_directories_with_descendants_map(tree);
    let ghost start = counts@;
    let mut i: usize = 0;
    while i < tree.len()
        invariant
            tree.wf(),
            counts.wf(),
            dir_descendants_map.wf(),
            dir_descendants_map@ == file_utils::descendants_map(tree@),
            i <= tree.keys().len(),
            forall|p: PathView| #[trigger]
                counts@.dom().contains(p) <==> start.dom().contains(p) || (tree.keys().take(
                    i as int,
                ).contains(p) && shows_directory(tree@, p)),
            forall|p: PathView| #[trigger]
                counts@.dom().contains(p) ==> counts@[p] == (if start.dom().contains(p) {
                    start[p]
                } else {
                    Some(0usize)
                }),
        decreases tree.keys().len() - i,
    {
        let key = tree.key_at(i);
        if is_shown_directory(tree, &dir_descendants_map, key) && !counts.contains_key(key) {
            counts.insert(key.clone(), Some(0));
        }
        proof {
            lemma_take_contains(tree.keys(), i as int);
        }
        i = i + 1;
    }
    proof {
        tree.lemma_keys();
        assert(tree.keys().take(i as int) =~= tree.keys());
        assert(counts@ =~= with_missing_directories(tree@, start));
    }
}

/// The view of a path that may be missing.
spec fn optional(p: Option<FilePath>) -> Option<PathView> {
    match p {
        Some(q) => Some(q@),
        None => None,
    }
}

/// Whether the file has the parent `dir`.
fn has_parent_path(file: &FilePath, dir: &Option<FilePath>) -> (r: bool)
    ensures
        r == (path::parent_of(file@) == optional(*dir)),
{
    match (file.parent(), dir) {
        (Some(a), Some(b)) => a.same(b),
        (None, None) => true,
        _ => false,
    }
}

/// The files that have the parent `dir`, and the others.
fn split_by_parent(files: &Vec<FilePath>, dir: &Option<FilePath>) -> (r: (
    Vec<FilePath>,
    Vec<FilePath>,
))
    ensures
        path::paths(r.0@) == path::paths(files@).filter(has_the_parent(optional(*dir))),
        path::paths(r.1@) == path::paths(files@).filter(has_other_parent(optional(*dir))),
{
    let ghost list = path::paths(files@);
    let ghost here = has_the_parent(optional(*dir));
    let ghost elsewhere = has_other_parent(optional(*dir));
    let mut inside: Vec<FilePath> = Vec::new();
    let mut outside: Vec<FilePath> = Vec::new();
    let mut i: usize = 0;
    proof {
        lemma_filter_empty(here);
        lemma_filter_empty(elsewhere);
        assert(list.take(0) =~= Seq::empty());
        assert(path::paths(inside@) =~= list.take(0).filter(here));
        assert(path::paths(outside@) =~= list.take(0).filter(elsewhere));
    }
    while i < files.len()
        invariant
            i <= files@.len(),
            list == path::paths(files@),
            here == has_the_parent(optional(*dir)),
            elsewhere == has_other_parent(optional(*dir)),
            path::paths(inside@) == list.take(i as int).filter(here),
            path::paths(outside@) == list.take(i as int).filter(elsewhere),
        decreases files.len() - i,
    {
        let ghost before_in = path::paths(inside@);
        let ghost before_out = path::paths(outside@);
        proof {
            file_utils::lemma_filter_step(list, here, i as int);
            file_utils::lemma_filter_step(list, elsewhere, i as int);
        }
        let file = files[i].clone();
        if has_parent_path(&file, dir) {
            inside.push(file);
            assert(path::paths(inside@) =~= before_in.push(list[i as int]));
        } else {
            outside.push(file);
            assert(path::paths(outside@) =~= before_out.push(list[i as int]));
        }
        i = i + 1;
    }
    assert(list.take(i as int) =~= list);
    (inside, outside)
}

/// Leaving out the first file makes no difference to those with another parent.
proof fn lemma_others_in_tail(files: Seq<PathView>)
    requires
        files.len() > 0,
    ensures
        files.filter(has_other_parent(path::parent_of(files[0]))) == files.drop_first().filter(
            has_other_parent(path::parent_of(files[0])),
        ),
        files.filter(has_other_parent(path::parent_of(files[0]))).len() < files.len(),
{
    let pred = has_other_parent(path::parent_of(files[0]));
    let one = seq![files[0]];
    assert(files =~= one + files.drop_first());
    Seq::filter_distributes_over_add(one, files.drop_first(), pred);
    one.lemma_all_neg_filter_empty(pred);
    assert(one.filter(pred) =~= Seq::empty());
    assert(Seq::<PathView>::empty() + files.drop_first().filter(pred)
        =~= files.drop_first().filter(pred));
    files.drop_first().lemma_filter_len(pred);
}

/// Adds the paths of one list to another.
fn append_paths(out: &mut Vec<FilePath>, more: &Vec<FilePath>)
    ensures
        path::paths(final(out)@) == path::paths(old(out)@) + path::paths(more@),
{
    let ghost start = path::paths(out@);
    let ghost list = path::paths(more@);
    let mut i: usize = 0;
    assert(path::paths(out@) =~= start + list.take(0));
    while i < more.len()
        invariant
            i <= more@.len(),
            list == path::paths(more@),
            path::paths(out@) == start + list.take(i as int),
        decreases more.len() - i,
    {
        let ghost before = path::paths(out@);
        out.push(more[i].clone());
        assert(path::paths(out@) =~= before.push(list[i as int]));
        assert(path::paths(out@) =~= start + list.take(i + 1));
        i = i + 1;
    }
    assert(list.take(i as int) =~= list);
}

/// Adds the files, directory by directory.
fn push_batches(files: Vec<FilePath>, out: &mut Vec<FilePath>)
    ensures
        path::paths(final(out)@) == path::paths(old(out)@) + batches(path::paths(files@)),
    decreases files@.len(),
{
    let ghost list = path::paths(files@);
    if files.len() == 0 {
        assert(path::paths(out@) + batches(list) =~= path::paths(out@));
        return;
    }
    let dir = files[0].parent();
    let (inside, outside) = split_by_parent(&files, &dir);
    let ghost start = path::paths(out@);
    proof {
        assert(list[0] == files@[0]@);
        lemma_others_in_tail(list);
        assert(path::paths(outside@).len() == outside@.len());
    }
    append_paths(out, &inside);
    push_batches(outside, out);
    assert(path::paths(out@) =~= start + batches(list));
}

/// The files in the order in which they are handed over for counting.
fn batch_files(files: &Vec<FilePath>) -> (r: Vec<FilePath>)
    ensures
        path::paths(r@) == batched(path::paths(files@)),
{
    let none: Option<FilePath> = None;
    let (individual, grouped) = split_by_parent(files, &none);
    let mut r: Vec<FilePath> = Vec::new();
    push_batches(grouped, &mut r);
    append_paths(&mut r, &individual);
    assert(path::paths(r@) =~= batched(path::paths(files@)));
    r
}

/// The list without repeats has the same paths, each of them once.
pub proof fn lemma_without_repeats(files: Seq<PathView>, p: PathView)
    ensures
        without_repeats(files).contains(p) <==> files.contains(p),
        without_repeats(files).no_duplicates(),
    decreases files.len(),
{
    if files.len() > 0 {
        let rest = files.drop_last();
        let before = without_repeats(rest);
        let f = files.last();
        lemma_without_repeats(rest, p);
        assert(files.contains(p) <==> rest.contains(p) || p == f) by {
            if rest.contains(p) {
                assert(files[rest.index_of(p)] == p);
            }
            if files.contains(p) && p != f {
                assert(rest[files.index_of(p)] == p);
            }
            assert(files[files.len() - 1] == f);
        }
        assert(before.push(f).contains(p) <==> before.contains(p) || p == f) by {
            if before.contains(p) {
                assert(before.push(f)[before.index_of(p)] == p);
            }
            if before.push(f).contains(p) && p != f {
                assert(before[before.push(f).index_of(p)] == p);
            }
            assert(before.push(f)[before.len() as int] == f);
        }
    }
}

/// Queues individual token calculations for background processing with batching.
/// Returns the files to count, in order.
pub fn queue_individual_token_calculations(
    tree: &FileTree,
    counts: &mut TokenCounts,
    pending: &mut PathSet,
    files: &Vec<FilePath>,
) -> (r: Vec<FilePath>)
    requires
        tree.wf(),
        old(counts).wf(),
    ensures
        final(counts).wf(),
        final(pending).wf(),
        final(counts)@ == queued_counts(tree@, old(counts)@, path::paths(files@)),
        path::paths(r@) == queued_files(tree@, old(counts)@, path::paths(files@)),
        final(pending)@ == fresh_files(
            kept(tree@, old(counts)@),
            path::paths(files@),
        ).to_set(),
{
    let ghost list = path::paths(files@);
    let ghost shown = kept(tree@, counts@);
    let ghost pred = not_counted(shown);
    *counts = keep_shown(tree, counts);
    let limit: usize = if files.len() > 1000 {
        1000
    } else {
        files.len()
    };
    let ghost few = limited(list);
    assert(few =~= list.take(limit as int));
    pending.clear();
    let mut fresh: Vec<FilePath> = Vec::new();
    let mut i: usize = 0;
    proof {
        lemma_filter_empty(pred);
        assert(few.take(0) =~= Seq::empty());
        assert(path::paths(fresh@) =~= Seq::empty());
        assert(counts@ =~= with_pending(shown, Seq::empty()));
        assert(pending@ =~= Seq::<PathView>::empty().to_set());
    }
    while i < limit
        invariant
            counts.wf(),
            pending.wf(),
            i <= limit <= files@.len(),
            list == path::paths(files@),
            few == list.take(limit as int),
            pred == not_counted(shown),
            path::paths(fresh@) == without_repeats(few.take(i as int).filter(pred)),
            counts@ == with_pending(shown, path::paths(fresh@)),
            pending@ == path::paths(fresh@).to_set(),
        decreases limit - i,
    {
        let ghost before = path::paths(fresh@);
        let ghost f = list[i as int];
        proof {
            file_utils::lemma_filter_step(few, pred, i as int);
            let picked = few.take(i as int).filter(pred);
            assert(picked.push(f).drop_last() =~= picked);
            if before.contains(f) {
                lemma_without_repeats(picked, f);
                few.take(i as int).lemma_filter_pred(pred, picked.index_of(f));
            }
        }
        if !counts.contains_key(&files[i]) {
            counts.insert(files[i].clone(), None);
            pending.insert(files[i].clone());
            fresh.push(files[i].clone());
            proof {
                let after = path::paths(fresh@);
                assert(after =~= before.push(f));
                assert forall|p: PathView| #[trigger] after.contains(p) <==> before.contains(p) || p
                    == f by {
                    if before.contains(p) {
                        assert(after[before.index_of(p)] == p);
                    }
                    if after.contains(p) && p != f {
                        assert(before[after.index_of(p)] == p);
                    }
                    assert(after[before.len() as int] == f);
                }
                assert(counts@ =~= with_pending(shown, after));
                assert(pending@ =~= after.to_set());
            }
        }
        i = i + 1;
    }
    assert(few.take(i as int) =~= few);
    queue_directory_calculations(tree, counts);
    batch_files(&fresh)
}

proof fn lemma_split_multiset(files: Seq<PathView>, dir: Option<PathView>)
    ensures
        files.to_multiset() =~= files.filter(has_the_parent(dir)).to_multiset().add(
            files.filter(has_other_parent(dir)).to_multiset(),
        ),
    decreases files.len(),
{
    broadcast use vstd::seq_lib::group_to_multiset_ensures;

    reveal(Seq::filter);
    if files.len() > 0 {
        let rest = files.drop_last();
        let f = files.last();
        lemma_split_multiset(rest, dir);
        assert(files =~= rest.push(f));
    }
}

proof fn lemma_batches_multiset(files: Seq<PathView>)
    ensures
        batches(files).to_multiset() =~= files.to_multiset(),
    decreases files.len(),
{
    if files.len() > 0 {
        let dir = path::parent_of(files[0]);
        lemma_others_in_tail(files);
        lemma_split_multiset(files, dir);
        let inside = files.filter(has_the_parent(dir));
        let outside = files.filter(has_other_parent(dir));
        lemma_batches_multiset(outside);
        vstd::seq_lib::lemma_multiset_commutative(inside, batches(outside));
    } else {
        assert(files =~= Seq::empty());
    }
}

/// Batching only changes the order: each file that is to be counted is handed over exactly as
/// often as it stands in the list.
pub proof fn lemma_batched_is_permutation(files: Seq<PathView>)
    ensures
        batched(files).to_multiset() == files.to_multiset(),
{
    let inside = files.filter(has_the_parent(None));
    let outside = files.filter(has_other_parent(None));
    lemma_split_multiset(files, None);
    lemma_batches_multiset(outside);
    vstd::seq_lib::lemma_multiset_commutative(batches(outside), inside);
    assert(batched(files).to_multiset() =~= files.to_multiset());
}

/// The counts after an update for a selection with at least one file: the counts that are not
/// shown are dropped, the directories are summed up, and the counting of new files is queued.
pub open spec fn updated_counts(
    t: TreeView,
    order: Seq<PathView>,
    counts: CountsView,
) -> CountsView {
    queued_counts(
        t,
        with_dir_totals(t, order, kept(t, counts)),
        file_utils::selected_files(t, order),
    )
}

/// The files that an update hands over for counting.
pub open spec fn updated_requests(
    t: TreeView,
    order: Seq<PathView>,
    counts: CountsView,
) -> Seq<PathView> {
    queued_files(
        t,
        with_dir_totals(t, order, kept(t, counts)),
        file_utils::selected_files(t, order),
    )
}

proof fn lemma_total_same(one: CountsView, other: CountsView, files: Seq<PathView>)
    requires
        forall|i: int|
            0 <= i < files.len() ==> known_count(one, #[trigger] files[i]) == known_count(
                other,
                files[i],
            ),
    ensures
        total(one, files) == total(other, files),
{
    lemma_total_monotone(one, other, files);
    lemma_total_monotone(other, one, files);
}

/// Counts that are not shown add nothing to the sums over selected files.
pub(crate) proof fn lemma_kept_totals(
    t: TreeView,
    order: Seq<PathView>,
    counts: CountsView,
    dir: PathView,
)
    requires
        order.no_duplicates(),
        forall|p: PathView| #[trigger] t.dom().contains(p) <==> order.contains(p),
    ensures
        total(kept(t, counts), file_utils::selected_files(t, order)) == total(
            counts,
            file_utils::selected_files(t, order),
        ),
        dir_total(t, order, kept(t, counts), dir) == dir_total(t, order, counts, dir),
{
    let files = file_utils::selected_files(t, order);
    let part = files.filter(lies_in(dir));
    assert forall|i: int| 0 <= i < files.len() implies known_count(
        kept(t, counts),
        #[trigger] files[i],
    ) == known_count(counts, files[i]) by {
        assert(files.contains(files[i]));
        tree_laws::lemma_selected_files_once(t, order, files[i]);
    }
    lemma_total_same(kept(t, counts), counts, files);
    assert forall|i: int| 0 <= i < part.len() implies known_count(
        kept(t, counts),
        #[trigger] part[i],
    ) == known_count(counts, part[i]) by {
        assert(part.contains(part[i]));
        files.lemma_filter_contains_rev(lies_in(dir), part[i]);
        tree_laws::lemma_selected_files_once(t, order, part[i]);
    }
    lemma_total_same(kept(t, counts), counts, part);
}

/// What an update leaves of each path: a directory that shows a count has the sum of its selected
/// files, a selected file keeps its count, a selected file without one is marked as under way,
/// unless a thousand others come before it, and nothing else is left.
pub proof fn lemma_updated_counts(
    t: TreeView,
    order: Seq<PathView>,
    counts: CountsView,
    p: PathView,
)
    requires
        order.no_duplicates(),
        forall|q: PathView| #[trigger] t.dom().contains(q) <==> order.contains(q),
    ensures
        ({
            let c = updated_counts(t, order, counts);
            let chosen = file_utils::selected_files(t, order);
            let selected = t.dom().contains(p) && t[p].is_selected && !t[p].is_directory;
            &&& shows_directory(t, p) ==> c.dom().contains(p) && c[p] == Some(
                dir_total(t, order, counts, p) as usize,
            )
            &&& selected && counts.dom().contains(p) ==> c.dom().contains(p) && c[p] == counts[p]
            &&& selected && !counts.dom().contains(p) && limited(chosen).contains(p)
                ==> c.dom().contains(p) && c[p] is None
            &&& c.dom().contains(p) ==> shows_directory(t, p) || (selected && (
            counts.dom().contains(p) || limited(chosen).contains(p)))
        }),
{
    let chosen = file_utils::selected_files(t, order);
    let base = with_dir_totals(t, order, kept(t, counts));
    let shown = kept(t, base);
    let pred = not_counted(shown);
    let few = limited(chosen);
    let fresh = fresh_files(shown, chosen);
    tree_laws::lemma_selected_files_once(t, order, p);
    lemma_kept_totals(t, order, counts, p);
    let picked = few.filter(pred);
    lemma_without_repeats(picked, p);
    assert(fresh.contains(p) <==> few.contains(p) && !shown.dom().contains(p)) by {
        if fresh.contains(p) {
            few.lemma_filter_contains_rev(pred, p);
            few.lemma_filter_pred(pred, picked.index_of(p));
        }
        if few.contains(p) && !shown.dom().contains(p) {
            few.lemma_filter_contains(pred, few.index_of(p));
        }
    }
    assert(few.contains(p) ==> chosen.contains(p)) by {
        if few.contains(p) {
            assert(chosen[few.index_of(p)] == p);
        }
    }
}

/// After an update the sum over the selected files is the same over the new counts as over those
/// before it: no count of a selected file is lost or made up.
pub proof fn lemma_updated_total(t: TreeView, order: Seq<PathView>, counts: CountsView)
    requires
        order.no_duplicates(),
        forall|q: PathView| #[trigger] t.dom().contains(q) <==> order.contains(q),
    ensures
        total(updated_counts(t, order, counts), file_utils::selected_files(t, order)) == total(
            counts,
            file_utils::selected_files(t, order),
        ),
{
    let files = file_utils::selected_files(t, order);
    assert forall|i: int| 0 <= i < files.len() implies known_count(
        updated_counts(t, order, counts),
        #[trigger] files[i],
    ) == known_count(counts, files[i]) by {
        assert(files.contains(files[i]));
        tree_laws::lemma_selected_files_once(t, order, files[i]);
        lemma_updated_counts(t, order, counts, files[i]);
    }
    lemma_total_same(updated_counts(t, order, counts), counts, files);
}

/// The sum of a directory is no more than that of a directory above it, and no more than the sum
/// over all selected files.
pub proof fn lemma_nested_totals(
    t: TreeView,
    order: Seq<PathView>,
    counts: CountsView,
    outer: PathView,
    inner: PathView,
)
    requires
        path::is_ancestor(outer, inner),
    ensures
        dir_total(t, order, counts, inner) <= dir_total(t, order, counts, outer),
        dir_total(t, order, counts, outer) <= total(
            counts,
            file_utils::selected_files(t, order),
        ),
{
    let files = file_utils::selected_files(t, order);
    assert forall|i: int| 0 <= i < files.len() && lies_in(inner)(files[i]) implies lies_in(outer)(
        #[trigger] files[i],
    ) by {
        let f = files[i];
        assert(outer =~= f.subrange(0, outer.len() as int)) by {
            assert(inner == f.subrange(0, inner.len() as int));
            assert(outer == inner.subrange(0, outer.len() as int));
        }
        assert forall|j: int| outer.len() <= j < f.len() implies (#[trigger] f[j]).has_parent() by {
            if j < inner.len() {
                assert(f[j] == inner[j]);
            }
        }
    }
    lemma_total_filter(counts, files, lies_in(inner), lies_in(outer));
    lemma_total_part(counts, files, lies_in(outer));
}

/// A directory that all selected files lie in has the sum over all of them.
pub proof fn lemma_common_directory_total(
    t: TreeView,
    order: Seq<PathView>,
    counts: CountsView,
    dir: PathView,
)
    requires
        forall|i: int|
            0 <= i < file_utils::selected_files(t, order).len() ==> path::is_ancestor(
                dir,
                #[trigger] file_utils::selected_files(t, order)[i],
            ),
    ensures
        dir_total(t, order, counts, dir) == total(counts, file_utils::selected_files(t, order)),
{
    lemma_filter_true(file_utils::selected_files(t, order), lies_in(dir));
}

proof fn lemma_filter_true(files: Seq<PathView>, pred: spec_fn(PathView) -> bool)
    requires
        forall|i: int| 0 <= i < files.len() ==> pred(#[trigger] files[i]),
    ensures
        files.filter(pred) == files,
    decreases files.len(),
{
    reveal(Seq::filter);
    if files.len() > 0 {
        let rest = files.drop_last();
        assert forall|i: int| 0 <= i < rest.len() implies pred(#[trigger] rest[i]) by {
            assert(rest[i] == files[i]);
        }
        lemma_filter_true(rest, pred);
        assert(pred(files[files.len() - 1]));
        assert(rest.push(files.last()) =~= files);
    }
}

/// An update keeps the known tokens of all files within the range of a count.
pub(crate) proof fn lemma_updated_fits(t: TreeView, order: Seq<PathView>, counts: CountsView)
    requires
        order.no_duplicates(),
        forall|q: PathView| #[trigger] t.dom().contains(q) <==> order.contains(q),
        fits(t, order, counts),
    ensures
        fits(t, order, kept(t, counts)),
        fits(t, order, updated_counts(t, order, counts)),
{
    let files = order.filter(is_file(t));
    lemma_total_monotone(kept(t, counts), counts, files);
    assert forall|i: int| 0 <= i < files.len() implies known_count(
        updated_counts(t, order, counts),
        #[trigger] files[i],
    ) <= known_count(counts, files[i]) by {
        order.lemma_filter_pred(is_file(t), i);
        lemma_updated_counts(t, order, counts, files[i]);
    }
    lemma_total_monotone(updated_counts(t, order, counts), counts, files);
}

/// Nothing is known yet, which is within range.
pub(crate) proof fn lemma_empty_fits(t: TreeView, order: Seq<PathView>)
    ensures
        fits(t, order, Map::empty()),
{
    lemma_empty_total(order.filter(is_file(t)));
}

proof fn lemma_empty_total(files: Seq<PathView>)
    ensures
        total(Map::empty(), files) == 0,
    decreases files.len(),
{
    if files.len() > 0 {
        lemma_empty_total(files.drop_last());
    }
}

/// The files that an update hands over are those that it marks as under way.
pub(crate) proof fn lemma_updated_requests(t: TreeView, order: Seq<PathView>, counts: CountsView)
    ensures
        updated_requests(t, order, counts).to_set() == fresh_files(
            kept(t, with_dir_totals(t, order, kept(t, counts))),
            file_utils::selected_files(t, order),
        ).to_set(),
{
    let fresh = fresh_files(
        kept(t, with_dir_totals(t, order, kept(t, counts))),
        file_utils::selected_files(t, order),
    );
    lemma_batched_is_permutation(fresh);
    broadcast use vstd::seq_lib::group_to_multiset_ensures;

    assert forall|p: PathView| batched(fresh).contains(p) <==> fresh.contains(p) by {
        assert(batched(fresh).to_multiset().count(p) == fresh.to_multiset().count(p));
    }
    assert(batched(fresh).to_set() =~= fresh.to_set());
}

/// Brings the counts up to date with a selection of at least one file.
/// Returns the tokens of the selected files as far as they are known, and the files to count.
pub fn update_counts(
    tree: &FileTree,
    counts: &mut TokenCounts,
    pending: &mut PathSet,
    selected_files: &Vec<FilePath>,
) -> (r: (usize, Vec<FilePath>))
    requires
        tree.wf(),
        old(counts).wf(),
        fits(tree@, tree.keys(), old(counts)@),
        path::paths(selected_files@) == file_utils::selected_files(tree@, tree.keys()),
    ensures
        final(counts).wf(),
        final(pending).wf(),
        final(counts)@ == updated_counts(tree@, tree.keys(), old(counts)@),
        fits(tree@, tree.keys(), final(counts)@),
        r.0 == total(old(counts)@, file_utils::selected_files(tree@, tree.keys())),
        path::paths(r.1@) == updated_requests(tree@, tree.keys(), old(counts)@),
        final(pending)@ == path::paths(r.1@).to_set(),
{
    proof {
        tree.lemma_keys();
        lemma_updated_fits(tree@, tree.keys(), counts@);
        lemma_kept_totals(tree@, tree.keys(), counts@, Seq::empty());
        lemma_updated_requests(tree@, tree.keys(), counts@);
    }
    *counts = keep_shown(tree, counts);
    let sum: usize = selected_total(tree, counts);
    recalculate_directory_token_counts(tree, counts);
    let requests = queue_individual_token_calculations(tree, counts, pending, selected_files);
    (sum, requests)
}

/// Summing up directories leaves the known tokens of files as they are.
pub(crate) proof fn lemma_dir_totals_fit(t: TreeView, order: Seq<PathView>, counts: CountsView)
    requires
        fits(t, order, counts),
    ensures
        fits(t, order, with_dir_totals(t, order, counts)),
        total(counts, file_utils::selected_files(t, order)) <= usize::MAX,
{
    let files = order.filter(is_file(t));
    lemma_selected_total(t, order, counts);
    assert forall|i: int| 0 <= i < files.len() implies known_count(
        with_dir_totals(t, order, counts),
        #[trigger] files[i],
    ) <= known_count(counts, files[i]) by {
        order.lemma_filter_pred(is_file(t), i);
    }
    lemma_total_monotone(with_dir_totals(t, order, counts), counts, files);
}

/// Whether the known tokens of all files of the tree are within the range of a count.
pub fn counts_fit(tree: &FileTree, counts: &TokenCounts) -> (r: bool)
    requires
        tree.wf(),
        counts.wf(),
    ensures
        r == fits(tree@, tree.keys(), counts@),
{
    let ghost keys = tree.keys();
    let ghost pred = is_file(tree@);
    let ghost files = keys.filter(pred);
    let mut sum: usize = 0;
    let mut i: usize = 0;
    proof {
        assert(keys.take(0) =~= Seq::empty());
        lemma_filter_empty(pred);
    }
    while i < tree.len()
        invariant
            tree.wf(),
            counts.wf(),
            keys == tree.keys(),
            pred == is_file(tree@),
            files == keys.filter(pred),
            i <= keys.len(),
            sum == total(counts@, keys.take(i as int).filter(pred)),
        decreases keys.len() - i,
    {
        proof {
            file_utils::lemma_filter_step(keys, pred, i as int);
            lemma_total_push(counts@, keys.take(i as int).filter(pred), keys[i as int]);
        }
        if !tree.value_at(i).is_directory {
            if let Some(found) = counts.get(tree.key_at(i)) {
                if let Some(count) = found {
                    match sum.checked_add(*count) {
                        Some(next) => {
                            sum = next;
                        },
                        None => {
                            proof {
                                lemma_filter_take_total(counts@, keys, pred, i + 1);
                            }
                            return false;
                        },
                    }
                }
            }
        }
        i = i + 1;
    }
    assert(keys.take(i as int) =~= keys);
    true
}

proof fn lemma_filter_take_total(
    counts: CountsView,
    keys: Seq<PathView>,
    pred: spec_fn(PathView) -> bool,
    n: int,
)
    requires
        0 <= n <= keys.len(),
    ensures
        total(counts, keys.take(n).filter(pred)) <= total(counts, keys.filter(pred)),
    decreases keys.len() - n,
{
    if n == keys.len() {
        assert(keys.take(n) =~= keys);
    } else {
        file_utils::lemma_filter_step(keys, pred, n);
        lemma_total_push(counts, keys.take(n).filter(pred), keys[n]);
        lemma_filter_take_total(counts, keys, pred, n + 1);
    }
}

/// Summing up directories leaves the sum over the selected files as it is.
pub(crate) proof fn lemma_dir_totals_keep_files(
    t: TreeView,
    order: Seq<PathView>,
    counts: CountsView,
)
    ensures
        total(with_dir_totals(t, order, counts), file_utils::selected_files(t, order)) == total(
            counts,
            file_utils::selected_files(t, order),
        ),
{
    let files = file_utils::selected_files(t, order);
    assert forall|i: int| 0 <= i < files.len() implies known_count(
        with_dir_totals(t, order, counts),
        #[trigger] files[i],
    ) == known_count(counts, files[i]) by {
        order.lemma_filter_pred(file_utils::selected_file(t), i);
    }
    lemma_total_same(with_dir_totals(t, order, counts), counts, files);
}

} // verus!
