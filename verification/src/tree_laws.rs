//! What holds of the file tree and of the list that the tree view shows.

use vstd::prelude::*;

use crate::file_utils;
use crate::path;
use crate::path::PathView;
use crate::types::TreeView;

verus! {

/// Every directory on the way to `p`, from the length `from` on, is expanded.
pub open spec fn way_expanded(t: TreeView, p: PathView, from: nat) -> bool {
    forall|k: int| from <= k < p.len() ==> (#[trigger] t[p.take(k)]).is_expanded
}

/// All that lies on the way from the root to a node is in the tree.
pub(crate) proof fn lemma_way_in_tree(t: TreeView, root: PathView, p: PathView, k: int)
    requires
        file_utils::linked(t, root),
        t.dom().contains(p),
        root.len() <= k <= p.len(),
    ensures
        t.dom().contains(p.take(k)),
        k == root.len() ==> p.take(k) == root,
    decreases p.len(),
{
    if k == p.len() {
        assert(p.take(k) =~= p);
        if k == root.len() && p != root {
            assert(p.len() > root.len());
        }
    } else {
        assert(p != root);
        let d = p.drop_last();
        assert(t.dom().contains(d));
        lemma_way_in_tree(t, root, d, k);
        assert(d.take(k) =~= p.take(k));
    }
}

/// A set that holds every start of `p` from the length `from` on has more than
/// `p.len() - from` members.
proof fn lemma_starts_counted(dom: Set<PathView>, p: PathView, from: nat)
    requires
        dom.finite(),
        from <= p.len(),
        forall|k: int| from <= k <= p.len() ==> dom.contains(#[trigger] p.take(k)),
    ensures
        p.len() - from < dom.len(),
{
    let way = Seq::new((p.len() - from + 1) as nat, |i: int| p.take(from + i));
    assert(way.no_duplicates()) by {
        assert forall|i: int, j: int|
            0 <= i < way.len() && 0 <= j < way.len() && i != j implies way[i] != way[j] by {
            assert(way[i].len() == from + i);
            assert(way[j].len() == from + j);
        }
    }
    way.unique_seq_to_set();
    assert(way.to_set().subset_of(dom)) by {
        assert forall|q: PathView| way.to_set().contains(q) implies dom.contains(q) by {
            let i = way.index_of(q);
            assert(way[i] == q);
        }
    }
    vstd::set_lib::lemma_len_subset(way.to_set(), dom);
}

/// A node of the tree is nested no deeper than the tree has nodes.
proof fn lemma_nesting(t: TreeView, root: PathView, p: PathView)
    requires
        file_utils::linked(t, root),
        t.dom().finite(),
        t.dom().contains(p),
    ensures
        root.len() <= p.len(),
        p.len() - root.len() < t.dom().len(),
{
    if p != root {
        assert(p.len() > root.len());
    }
    assert forall|k: int| root.len() <= k <= p.len() implies t.dom().contains(
        #[trigger] p.take(k),
    ) by {
        lemma_way_in_tree(t, root, p, k);
    }
    lemma_starts_counted(t.dom(), p, root.len());
}

/// Whether `p` shows below the child `c`, at most `levels` deeper than `c`.
spec fn shows_below(t: TreeView, c: PathView, p: PathView, levels: nat) -> bool {
    &&& c.is_prefix_of(p)
    &&& t.dom().contains(p)
    &&& p.len() <= c.len() + levels
    &&& way_expanded(t, p, c.len())
}

#[verifier::spinoff_prover]
#[verifier::rlimit(50)]
proof fn lemma_below(t: TreeView, root: PathView, d: PathView, n: int, levels: nat, p: PathView)
    requires
        file_utils::linked(t, root),
        t.dom().contains(d),
        0 <= n <= t[d].children.len(),
    ensures
        file_utils::visible_below(t, t[d].children.take(n), levels).contains(p) <==> exists|i: int|
            0 <= i < n && shows_below(t, #[trigger] t[d].children[i], p, levels),
    decreases levels, n,
{
    let list = t[d].children.take(n);
    let shown = file_utils::visible_below(t, list, levels);
    if n == 0 {
        assert(list.len() == 0);
    } else {
        let above = file_utils::visible_below(t, t[d].children.take(n - 1), levels);
        let c = t[d].children[n - 1];
        assert(list.drop_last() =~= t[d].children.take(n - 1));
        assert(list.last() == c);
        assert(t.dom().contains(c) && c.len() == d.len() + 1 && c.drop_last() == d);
        lemma_below(t, root, d, n - 1, levels, p);
        let inner = if t[c].is_directory && t[c].is_expanded && levels > 0 {
            file_utils::visible_below(t, t[c].children, (levels - 1) as nat)
        } else {
            Seq::empty()
        };
        assert(shown =~= above.push(c) + inner);
        assert(shown.contains(p) <==> above.contains(p) || p == c || inner.contains(p)) by {
            if above.contains(p) {
                assert(shown[above.index_of(p)] == p);
            }
            assert(shown[above.len() as int] == c);
            if inner.contains(p) {
                assert(shown[above.len() + 1 + inner.index_of(p)] == p);
            }
            if shown.contains(p) {
                let i = shown.index_of(p);
                if i < above.len() {
                    assert(above[i] == p);
                } else if i > above.len() {
                    assert(inner[i - above.len() - 1] == p);
                }
            }
        }
        assert(shows_below(t, c, p, levels) <==> p == c || inner.contains(p)) by {
            if p == c {
                assert(c.is_prefix_of(c)) by {
                    assert(c.subrange(0, c.len() as int) =~= c);
                }
            }
            if levels > 0 {
                let m = t[c].children.len() as int;
                assert(t[c].children.take(m) =~= t[c].children);
                lemma_below(t, root, c, m, (levels - 1) as nat, p);
                if inner.contains(p) {
                    let j = choose|j: int|
                        0 <= j < m && shows_below(
                            t,
                            #[trigger] t[c].children[j],
                            p,
                            (levels - 1) as nat,
                        );
                    let e = t[c].children[j];
                    assert(e.len() == c.len() + 1 && e.drop_last() == c);
                    assert(p.take(c.len() as int) =~= c) by {
                        assert(p.take(e.len() as int) =~= e);
                        assert(p.take(c.len() as int) =~= e.drop_last());
                    }
                    assert(p.subrange(0, c.len() as int) =~= p.take(c.len() as int));
                    assert forall|k: int| c.len() <= k < p.len() implies (
                    #[trigger] t[p.take(k)]).is_expanded by {
                        if k > c.len() {
                            assert(e.len() <= k);
                        }
                    }
                }
            }
            if shows_below(t, c, p, levels) && p != c {
                assert(p.take(c.len() as int) =~= c);
                assert(p.len() > c.len()) by {
                    if p.len() == c.len() {
                        assert(p =~= c);
                    }
                }
                assert(t[p.take(c.len() as int)].is_expanded);
                let e = p.take(c.len() as int + 1);
                assert(c.len() >= root.len()) by {
                    if c != root {
                        assert(c.len() > root.len());
                    }
                }
                lemma_way_in_tree(t, root, p, c.len() as int + 1);
                assert(e.drop_last() =~= c);
                assert(e != root) by {
                    assert(e.len() > root.len());
                }
                assert(t.dom().contains(e));
                assert(t[c].children.contains(e));
                let j = t[c].children.index_of(e);
                assert(t[c].children[j] == e);
                assert(e.is_prefix_of(p)) by {
                    assert(p.subrange(0, e.len() as int) =~= e);
                }
                assert(levels > 0);
                assert(shows_below(t, t[c].children[j], p, (levels - 1) as nat));
            }
        }
        if exists|i: int| 0 <= i < n && shows_below(t, #[trigger] t[d].children[i], p, levels) {
            let i = choose|i: int|
                0 <= i < n && shows_below(t, #[trigger] t[d].children[i], p, levels);
            if i < n - 1 {
                assert(shows_below(t, t[d].children[i], p, levels));
            }
        }
        if shows_below(t, c, p, levels) {
            assert(shows_below(t, t[d].children[n - 1], p, levels));
        }
    }
}

/// The tree view shows exactly the nodes below the root to which every directory on the way, from
/// the root on, is expanded.
pub proof fn lemma_visible_iff_way_expanded(t: TreeView, root: PathView, size: nat, p: PathView)
    requires
        file_utils::linked(t, root),
        t.dom().finite(),
        t[root].is_directory,
        size >= t.dom().len(),
    ensures
        file_utils::visible_tree(t, root, size).contains(p) <==> t.dom().contains(p) && p != root
            && way_expanded(t, p, root.len()),
{
    let n = t[root].children.len() as int;
    assert(t[root].children.take(n) =~= t[root].children);
    lemma_below(t, root, root, n, size, p);
    if t.dom().contains(p) && p != root && way_expanded(t, p, root.len()) {
        lemma_nesting(t, root, p);
        lemma_way_in_tree(t, root, p, root.len() as int);
        assert(t[p.take(root.len() as int)].is_expanded);
        assert(p.len() > root.len());
        let c = p.take(root.len() as int + 1);
        lemma_way_in_tree(t, root, p, root.len() as int + 1);
        assert(c.drop_last() =~= p.take(root.len() as int));
        assert(c != root);
        assert(t[root].children.contains(c));
        let i = t[root].children.index_of(c);
        assert(t[root].children[i] == c);
        assert(p.subrange(0, c.len() as int) =~= c);
        assert forall|k: int| c.len() <= k < p.len() implies (
        #[trigger] t[p.take(k)]).is_expanded by {}
        assert(shows_below(t, t[root].children[i], p, size));
    }
    if file_utils::visible_tree(t, root, size).contains(p) {
        let i = choose|i: int|
            0 <= i < n && shows_below(t, #[trigger] t[root].children[i], p, size);
        let c = t[root].children[i];
        assert(c.len() == root.len() + 1 && c.drop_last() == root);
        assert(p.take(c.len() as int) =~= c);
        assert(p.take(root.len() as int) =~= c.drop_last());
        assert forall|k: int| root.len() <= k < p.len() implies (
        #[trigger] t[p.take(k)]).is_expanded by {
            if k > root.len() {
                assert(c.len() <= k);
            }
        }
    }
}

proof fn lemma_below_no_duplicates(t: TreeView, root: PathView, d: PathView, n: int, levels: nat)
    requires
        file_utils::linked(t, root),
        t.dom().contains(d),
        0 <= n <= t[d].children.len(),
    ensures
        file_utils::visible_below(t, t[d].children.take(n), levels).no_duplicates(),
    decreases levels, n,
{
    let list = t[d].children.take(n);
    let shown = file_utils::visible_below(t, list, levels);
    if n > 0 {
        let above = file_utils::visible_below(t, t[d].children.take(n - 1), levels);
        let c = t[d].children[n - 1];
        assert(list.drop_last() =~= t[d].children.take(n - 1));
        assert(list.last() == c);
        lemma_below_no_duplicates(t, root, d, n - 1, levels);
        let inner = if t[c].is_directory && t[c].is_expanded && levels > 0 {
            file_utils::visible_below(t, t[c].children, (levels - 1) as nat)
        } else {
            Seq::empty()
        };
        assert(shown =~= above.push(c) + inner);
        if levels > 0 {
            let m = t[c].children.len() as int;
            assert(t[c].children.take(m) =~= t[c].children);
            lemma_below_no_duplicates(t, root, c, m, (levels - 1) as nat);
        }
        assert forall|q: PathView| inner.contains(q) implies c.is_prefix_of(q) && q != c by {
            let m = t[c].children.len() as int;
            assert(t[c].children.take(m) =~= t[c].children);
            lemma_below(t, root, c, m, (levels - 1) as nat, q);
            let j = choose|j: int|
                0 <= j < m && shows_below(t, #[trigger] t[c].children[j], q, (levels - 1) as nat);
            let e = t[c].children[j];
            assert(e.len() == c.len() + 1 && e.drop_last() == c);
            assert(q.take(e.len() as int) =~= e);
            assert(q.subrange(0, c.len() as int) =~= e.drop_last());
        }
        assert forall|q: PathView| above.contains(q) implies !c.is_prefix_of(q) by {
            lemma_below(t, root, d, n - 1, levels, q);
            let i = choose|i: int|
                0 <= i < n - 1 && shows_below(t, #[trigger] t[d].children[i], q, levels);
            let e = t[d].children[i];
            assert(t[d].children[i] != t[d].children[n - 1]);
            assert(e.len() == d.len() + 1);
            assert(c.len() == d.len() + 1);
            if c.is_prefix_of(q) {
                assert(q.subrange(0, c.len() as int) =~= e);
            }
        }
        assert(c.is_prefix_of(c)) by {
            assert(c.subrange(0, c.len() as int) =~= c);
        }
        assert forall|i: int, j: int| 0 <= i < j < shown.len() implies shown[i] != shown[j] by {
            if j < above.len() {
                assert(above[i] != above[j]);
            } else if i < above.len() {
                assert(above.contains(above[i]));
                if j > above.len() {
                    assert(inner.contains(inner[j - above.len() - 1]));
                }
            } else if i == above.len() {
                assert(inner.contains(inner[j - above.len() - 1]));
            } else {
                assert(inner[i - above.len() - 1] != inner[j - above.len() - 1]);
            }
        }
    }
}

/// The tree view shows no node twice.
pub proof fn lemma_visible_no_duplicates(t: TreeView, root: PathView, size: nat)
    requires
        file_utils::linked(t, root),
    ensures
        file_utils::visible_tree(t, root, size).no_duplicates(),
{
    let n = t[root].children.len() as int;
    assert(t[root].children.take(n) =~= t[root].children);
    lemma_below_no_duplicates(t, root, root, n, size);
}

/// Whether a list shows each directory before what it holds, all that a directory holds right after
/// it, and the children of each directory in their order; `d` holds the top of the list.
pub open spec fn in_tree_order(t: TreeView, d: PathView, shown: Seq<PathView>) -> bool {
    &&& forall|i: int|
        0 <= i < shown.len() && (#[trigger] shown[i]).drop_last() != d ==> exists|j: int|
            0 <= j < i && #[trigger] shown[j] == shown[i].drop_last()
    &&& forall|i: int, j: int, k: int|
        0 <= i < j < k < shown.len() && (#[trigger] shown[i]).is_prefix_of(#[trigger] shown[k])
            ==> shown[i].is_prefix_of(#[trigger] shown[j])
    &&& forall|e: PathView, x: int, y: int, i: int, j: int|
        t.dom().contains(e) && 0 <= x < y < t[e].children.len() && 0 <= i < shown.len() && 0 <= j
            < shown.len() && shown[i] == #[trigger] t[e].children[x] && shown[j]
            == #[trigger] t[e].children[y] && #[trigger] shown[i] != #[trigger] shown[j] ==> i < j
}

/// What shows of the children before one of them, and what shows below that one.
proof fn lemma_below_split(
    t: TreeView,
    root: PathView,
    d: PathView,
    n: int,
    levels: nat,
    above: Seq<PathView>,
    inner: Seq<PathView>,
)
    requires
        file_utils::linked(t, root),
        t.dom().contains(d),
        0 < n <= t[d].children.len(),
        above == file_utils::visible_below(t, t[d].children.take(n - 1), levels),
        inner == (if t[t[d].children[n - 1]].is_directory && t[t[d].children[n - 1]].is_expanded
            && levels > 0 {
            file_utils::visible_below(t, t[t[d].children[n - 1]].children, (levels - 1) as nat)
        } else {
            Seq::empty()
        }),
    ensures
        file_utils::visible_below(t, t[d].children.take(n), levels) == above.push(
            t[d].children[n - 1],
        ) + inner,
        t.dom().contains(t[d].children[n - 1]),
        forall|q: PathView| #[trigger]
            inner.contains(q) ==> t[d].children[n - 1].is_prefix_of(q) && q.len()
                > t[d].children[n - 1].len(),
        forall|q: PathView| #[trigger]
            above.contains(q) ==> !t[d].children[n - 1].is_prefix_of(q) && q.len() > d.len() && (
            q.len() == d.len() + 1 ==> t[d].children.take(n - 1).contains(q)),
{
    let list = t[d].children.take(n);
    let c = t[d].children[n - 1];
    assert(list.drop_last() =~= t[d].children.take(n - 1));
    assert(list.last() == c);
    assert(t.dom().contains(c) && c.len() == d.len() + 1 && c.drop_last() == d);
    assert(file_utils::visible_below(t, list, levels) =~= above.push(c) + inner);
    assert forall|q: PathView| #[trigger] inner.contains(q) implies c.is_prefix_of(q) && q.len()
        > c.len() by {
        let m = t[c].children.len() as int;
        assert(t[c].children.take(m) =~= t[c].children);
        lemma_below(t, root, c, m, (levels - 1) as nat, q);
        let j = choose|j: int|
            0 <= j < m && shows_below(t, #[trigger] t[c].children[j], q, (levels - 1) as nat);
        let e = t[c].children[j];
        assert(e.len() == c.len() + 1 && e.drop_last() == c);
        assert(q.take(e.len() as int) =~= e);
        assert(q.subrange(0, c.len() as int) =~= e.drop_last());
    }
    assert forall|q: PathView| #[trigger] above.contains(q) implies !c.is_prefix_of(q) && q.len()
        > d.len() && (q.len() == d.len() + 1 ==> t[d].children.take(n - 1).contains(q)) by {
        lemma_below(t, root, d, n - 1, levels, q);
        let i = choose|i: int|
            0 <= i < n - 1 && shows_below(t, #[trigger] t[d].children[i], q, levels);
        let e = t[d].children[i];
        assert(t[d].children[i] != t[d].children[n - 1]);
        assert(e.len() == d.len() + 1);
        if c.is_prefix_of(q) {
            assert(q.subrange(0, c.len() as int) =~= e);
        }
        if q.len() == d.len() + 1 {
            assert(q =~= e);
            assert(t[d].children.take(n - 1)[i] == q);
        }
    }
}

proof fn lemma_below_order(t: TreeView, root: PathView, d: PathView, n: int, levels: nat)
    requires
        file_utils::linked(t, root),
        t.dom().contains(d),
        0 <= n <= t[d].children.len(),
    ensures
        in_tree_order(t, d, file_utils::visible_below(t, t[d].children.take(n), levels)),
    decreases levels, n,
{
    let shown = file_utils::visible_below(t, t[d].children.take(n), levels);
    if n == 0 {
        assert(t[d].children.take(n).len() == 0);
        assert(shown.len() == 0);
    } else {
        let c = t[d].children[n - 1];
        let above = file_utils::visible_below(t, t[d].children.take(n - 1), levels);
        let deeper = t[c].is_directory && t[c].is_expanded && levels > 0;
        let inner = if deeper {
            file_utils::visible_below(t, t[c].children, (levels - 1) as nat)
        } else {
            Seq::empty()
        };
        lemma_below_split(t, root, d, n, levels, above, inner);
        lemma_below_order(t, root, d, n - 1, levels);
        assert(t.dom().contains(c) && c.len() == d.len() + 1 && c.drop_last() == d);
        if deeper {
            let m = t[c].children.len() as int;
            assert(t[c].children.take(m) =~= t[c].children);
            lemma_below_order(t, root, c, m, (levels - 1) as nat);
        }
        let a = above.len() as int;
        assert forall|i: int| 0 <= i < shown.len() implies {
            &&& i < a ==> #[trigger] shown[i] == above[i] && above.contains(shown[i])
            &&& i == a ==> shown[i] == c
            &&& i > a ==> shown[i] == inner[i - a - 1] && inner.contains(shown[i])
        } by {
            if i < a {
                assert(above.contains(above[i]));
            } else if i > a {
                assert(inner.contains(inner[i - a - 1]));
            }
        }
        assert forall|i: int|
            0 <= i < shown.len() && (#[trigger] shown[i]).drop_last() != d implies exists|j: int|
            0 <= j < i && #[trigger] shown[j] == shown[i].drop_last() by {
            if i < a {
                let j = choose|j: int|
                    0 <= j < i && #[trigger] above[j] == above[i].drop_last();
                assert(shown[j] == above[j]);
            } else if i > a {
                if shown[i].drop_last() == c {
                    assert(shown[a] == c);
                } else {
                    let at = i - a - 1;
                    assert(inner[at].drop_last() != c);
                    let j = choose|j: int|
                        0 <= j < at && #[trigger] inner[j] == inner[at].drop_last();
                    assert(shown[j + a + 1] == inner[j]);
                }
            }
        }
        assert forall|i: int, j: int, k: int|
            0 <= i < j < k < shown.len() && (#[trigger] shown[i]).is_prefix_of(
                #[trigger] shown[k],
            ) implies shown[i].is_prefix_of(#[trigger] shown[j]) by {
            if k < a {
                assert(above[i].is_prefix_of(above[k]));
            } else if i > a {
                assert(inner[i - a - 1].is_prefix_of(inner[k - a - 1]));
                assert(inner[i - a - 1].is_prefix_of(inner[j - a - 1]));
            } else if i < a {
                let p = shown[i];
                let q = shown[k];
                assert(c.is_prefix_of(q)) by {
                    if k == a {
                        assert(c.subrange(0, c.len() as int) =~= c);
                    }
                }
                assert(p.subrange(0, c.len() as int) =~= c) by {
                    assert(p == q.subrange(0, p.len() as int));
                    assert(c == q.subrange(0, c.len() as int));
                }
                assert(c.is_prefix_of(p));
            }
        }
        assert forall|e: PathView, x: int, y: int, i: int, j: int|
            t.dom().contains(e) && 0 <= x < y < t[e].children.len() && 0 <= i < shown.len() && 0
                <= j < shown.len() && shown[i] == #[trigger] t[e].children[x] && shown[j]
                == #[trigger] t[e].children[y] && #[trigger] shown[i]
                != #[trigger] shown[j] implies i < j by {
            let p = t[e].children[x];
            let q = t[e].children[y];
            assert(p.len() == e.len() + 1 && p.drop_last() == e);
            assert(q.len() == e.len() + 1 && q.drop_last() == e);
            if j <= i {
                if i < a {
                    assert(above[i] != above[j]);
                } else if j > a {
                    assert(inner[i - a - 1] != inner[j - a - 1]);
                } else if i == a {
                    assert(e == d);
                    assert(x == n - 1);
                    assert(j < a);
                    assert(t[d].children.take(n - 1).contains(q));
                    let z = t[d].children.take(n - 1).index_of(q);
                    assert(t[d].children[z] == t[d].children[y]);
                } else if j == a {
                    assert(p.len() == c.len());
                } else {
                    assert(c.is_prefix_of(p) && p.len() > c.len());
                    assert(q.subrange(0, c.len() as int) =~= c) by {
                        assert(p.subrange(0, c.len() as int) =~= e.subrange(0, c.len() as int));
                        assert(q.subrange(0, c.len() as int) =~= e.subrange(0, c.len() as int));
                    }
                    assert(c.is_prefix_of(q));
                }
            }
        }
    }
}

/// The tree view shows each directory before what it holds, all that it holds right after it, and
/// the children of each directory in their order.
pub proof fn lemma_visible_in_order(t: TreeView, root: PathView, size: nat)
    requires
        file_utils::linked(t, root),
    ensures
        in_tree_order(t, root, file_utils::visible_tree(t, root, size)),
{
    let n = t[root].children.len() as int;
    assert(t[root].children.take(n) =~= t[root].children);
    lemma_below_order(t, root, root, n, size);
}

proof fn lemma_below_in_tree(t: TreeView, children: Seq<PathView>, levels: nat, p: PathView)
    requires
        file_utils::visible_below(t, children, levels).contains(p),
    ensures
        t.dom().contains(p),
    decreases levels, children.len(),
{
    if children.len() > 0 {
        let above = file_utils::visible_below(t, children.drop_last(), levels);
        let c = children.last();
        let shown = file_utils::visible_below(t, children, levels);
        let i = shown.index_of(p);
        assert(shown[i] == p);
        if i < above.len() {
            assert(above[i] == p);
            lemma_below_in_tree(t, children.drop_last(), levels, p);
        } else if i > above.len() {
            let inner = file_utils::visible_below(t, t[c].children, (levels - 1) as nat);
            assert(inner[i - above.len() - 1] == p);
            lemma_below_in_tree(t, t[c].children, (levels - 1) as nat, p);
        }
    }
}

/// Every path that the tree view shows is in the tree.
pub proof fn lemma_visible_in_tree(t: TreeView, root: PathView, size: nat, p: PathView)
    requires
        file_utils::visible_tree(t, root, size).contains(p),
    ensures
        t.dom().contains(p),
{
    lemma_below_in_tree(t, t[root].children, size, p);
}

proof fn lemma_below_ignores_selection(
    t: TreeView,
    which: spec_fn(PathView) -> bool,
    selected: bool,
    children: Seq<PathView>,
    levels: nat,
)
    ensures
        file_utils::visible_below(file_utils::with_selection(t, which, selected), children, levels)
            == file_utils::visible_below(t, children, levels),
    decreases levels, children.len(),
{
    if children.len() > 0 {
        let c = children.last();
        lemma_below_ignores_selection(t, which, selected, children.drop_last(), levels);
        if levels > 0 {
            lemma_below_ignores_selection(t, which, selected, t[c].children, (levels - 1) as nat);
        }
    }
}

/// Selecting or unselecting nodes leaves the list that the tree view shows as it is.
pub proof fn lemma_selection_keeps_visible(
    t: TreeView,
    which: spec_fn(PathView) -> bool,
    selected: bool,
    root: PathView,
    size: nat,
)
    ensures
        file_utils::visible_tree(file_utils::with_selection(t, which, selected), root, size)
            == file_utils::visible_tree(t, root, size),
{
    lemma_below_ignores_selection(t, which, selected, t[root].children, size);
}

/// Toggling a node twice gives the node its state back, and gives that state to all below it.
pub proof fn lemma_toggle_twice(t: TreeView, path: PathView, p: PathView)
    requires
        t.dom().contains(path),
        t.dom().contains(p),
    ensures
        ({
            let twice = file_utils::with_toggled_selection(
                file_utils::with_toggled_selection(t, path),
                path,
            );
            &&& path.is_prefix_of(p) ==> twice[p].is_selected == t[path].is_selected
            &&& !path.is_prefix_of(p) ==> twice[p] == t[p]
            &&& twice[path] == t[path]
        }),
{
    assert(path.subrange(0, path.len() as int) =~= path);
}

/// Once everything is unselected, no file is selected and no directory has selected descendants.
pub proof fn lemma_unselect_all(t: TreeView, order: Seq<PathView>, dir: PathView)
    requires
        forall|i: int| 0 <= i < order.len() ==> t.dom().contains(#[trigger] order[i]),
    ensures
        ({
            let u = file_utils::with_selection(t, |p: PathView| true, false);
            &&& file_utils::selected_files(u, order) == Seq::<PathView>::empty()
            &&& !file_utils::has_selected_below(u, dir)
        }),
{
    let u = file_utils::with_selection(t, |p: PathView| true, false);
    let pred = file_utils::selected_file(u);
    assert forall|i: int| 0 <= i < order.len() implies !pred(#[trigger] order[i]) by {
        assert(u.dom().contains(order[i]));
    }
    order.lemma_all_neg_filter_empty(pred);
}

/// A selected file is listed with the selected files exactly once, where the order names each
/// path once.
pub proof fn lemma_selected_files_once(t: TreeView, order: Seq<PathView>, p: PathView)
    requires
        order.no_duplicates(),
    ensures
        file_utils::selected_files(t, order).no_duplicates(),
        file_utils::selected_files(t, order).contains(p) <==> order.contains(p) && t[p].is_selected
            && !t[p].is_directory,
    decreases order.len(),
{
    reveal(Seq::filter);
    if order.len() > 0 {
        let init = order.drop_last();
        let last = order.last();
        lemma_selected_files_once(t, init, p);
        lemma_selected_files_once(t, init, last);
        let f = file_utils::selected_files(t, order);
        let g = file_utils::selected_files(t, init);
        assert(order =~= init.push(last));
        assert(!init.contains(last)) by {
            if init.contains(last) {
                let i = init.index_of(last);
                assert(order[i] == order[order.len() - 1]);
            }
        }
        if init.contains(p) {
            assert(order[init.index_of(p)] == p);
        }
        if order.contains(p) && p != last {
            let i = order.index_of(p);
            assert(init[i] == p);
        }
        assert(order[order.len() - 1] == last);
        if file_utils::selected_file(t)(last) {
            assert(f =~= g.push(last));
            assert(f[g.len() as int] == last);
            if g.contains(p) {
                assert(f[g.index_of(p)] == p);
            }
            if f.contains(p) && p != last {
                let i = f.index_of(p);
                assert(g[i] == p);
            }
            assert(f.no_duplicates()) by {
                assert forall|i: int, j: int|
                    0 <= i < f.len() && 0 <= j < f.len() && i != j implies f[i] != f[j] by {
                    if i < g.len() && j < g.len() {
                    } else if i < g.len() {
                        assert(g.contains(g[i]));
                    } else if j < g.len() {
                        assert(g.contains(g[j]));
                    }
                }
            }
        }
    }
}

} // verus!
