//! What selecting, expanding and adding do to the file tree, and what the tree looks like as text.

use vstd::prelude::*;

use crate::app;
use crate::file_utils;
use crate::laws::lists;
use crate::laws::totals;
use crate::path;
use crate::path::{ComponentView, PathView};
use crate::text;
use crate::tree_laws;
use crate::types;
use crate::types::{NodeView, TreeView};

verus! {

/// The selected files are exactly the selected nodes that are no directories, each once, in the
/// order of the tree. The result gives the place of each in that order.
pub proof fn lemma_selected_files_are_picked(t: TreeView, order: Seq<PathView>) -> (places: Seq<int>)
    requires
        order.no_duplicates(),
        forall|p: PathView| #[trigger] t.dom().contains(p) <==> order.contains(p),
    ensures
        ({
            let files = file_utils::selected_files(t, order);
            &&& files.no_duplicates()
            &&& forall|p: PathView| #[trigger]
                files.contains(p) <==> t.dom().contains(p) && t[p].is_selected
                    && !t[p].is_directory
            &&& places.len() == files.len()
            &&& forall|k: int|
                0 <= k < places.len() ==> 0 <= #[trigger] places[k] < order.len()
                    && order[places[k]] == files[k]
            &&& forall|j: int, k: int|
                0 <= j < k < places.len() ==> #[trigger] places[j] < #[trigger] places[k]
        }),
{
    let pred = file_utils::selected_file(t);
    let files = file_utils::selected_files(t, order);
    lists::lemma_filter_members(order, pred);
    assert forall|p: PathView| #[trigger] files.contains(p) <==> t.dom().contains(p)
        && t[p].is_selected && !t[p].is_directory by {
        assert(t.dom().contains(p) <==> order.contains(p));
    }
    lists::lemma_filter_places(order, pred)
}

/// Toggling a node flips its selection, gives the new state to all that lies below it, and changes
/// nothing else of any node.
pub proof fn lemma_toggle_reaches_subtree(t: TreeView, path: PathView, p: PathView)
    requires
        t.dom().contains(path),
    ensures
        ({
            let u = file_utils::with_toggled_selection(t, path);
            &&& u.dom().contains(p) <==> t.dom().contains(p)
            &&& t.dom().contains(p) ==> u[p].is_selected == (if p.len() >= path.len() && p.take(
                path.len() as int,
            ) == path {
                !t[path].is_selected
            } else {
                t[p].is_selected
            })
            &&& t.dom().contains(p) ==> u[p].path == t[p].path && u[p].name == t[p].name
                && u[p].is_directory == t[p].is_directory && u[p].is_expanded == t[p].is_expanded
                && u[p].children == t[p].children && u[p].depth == t[p].depth
        }),
{
    if p.len() >= path.len() {
        assert(p.take(path.len() as int) =~= p.subrange(0, path.len() as int));
    }
}

/// Selecting or unselecting some nodes sets just those, and changes nothing else.
pub proof fn lemma_selection_sets_chosen(
    t: TreeView,
    which: spec_fn(PathView) -> bool,
    selected: bool,
    p: PathView,
)
    ensures
        ({
            let u = file_utils::with_selection(t, which, selected);
            &&& u.dom().contains(p) <==> t.dom().contains(p)
            &&& t.dom().contains(p) && which(p) ==> u[p].is_selected == selected && u[p]
                == (NodeView { is_selected: selected, ..t[p] })
            &&& t.dom().contains(p) && !which(p) ==> u[p] == t[p]
        }),
{
}

/// Expanding or collapsing all sets every directory, leaves files as they are, and selects nothing.
pub proof fn lemma_expansion_sets_directories(t: TreeView, expanded: bool, p: PathView)
    ensures
        ({
            let u = file_utils::with_expansion(t, expanded);
            &&& u.dom().contains(p) <==> t.dom().contains(p)
            &&& t.dom().contains(p) && t[p].is_directory ==> u[p].is_expanded == expanded && u[p]
                == (NodeView { is_expanded: expanded, ..t[p] })
            &&& t.dom().contains(p) && !t[p].is_directory ==> u[p] == t[p]
        }),
{
}

/// Toggling a node's expansion flips it where the node is a directory, and never changes anything
/// else.
pub proof fn lemma_toggled_node(n: NodeView)
    ensures
        types::toggled(n).is_expanded == (n.is_expanded != n.is_directory),
        types::toggled(n) == (NodeView { is_expanded: types::toggled(n).is_expanded, ..n }),
{
}

/// Whether something below a directory is selected is a matter of one selected node further down;
/// the map says it of each directory of the tree, and has nothing on files.
pub proof fn lemma_descendants_are_further_down(t: TreeView, dir: PathView)
    ensures
        ({
            let below = exists|q: PathView| #[trigger]
                t.dom().contains(q) && t[q].is_selected && q.len() > dir.len() && q.take(
                    dir.len() as int,
                ) == dir;
            let map = file_utils::descendants_map(t);
            &&& file_utils::has_selected_below(t, dir) <==> below
            &&& map.dom().contains(dir) <==> t.dom().contains(dir) && t[dir].is_directory
            &&& map.dom().contains(dir) ==> map[dir] == below
        }),
{
    assert forall|q: PathView| path::is_below(q, dir) <==> q.len() > dir.len() && q.take(
        dir.len() as int,
    ) == dir by {
        if q.len() >= dir.len() {
            assert(q.subrange(0, dir.len() as int) =~= q.take(dir.len() as int));
            if q.len() == dir.len() {
                assert(q.take(dir.len() as int) =~= q);
            }
        }
    }
    if file_utils::has_selected_below(t, dir) {
        let q = choose|q: PathView| #[trigger]
            t.dom().contains(q) && t[q].is_selected && path::is_below(q, dir);
        assert(q.len() > dir.len() && q.take(dir.len() as int) == dir);
    }
    if exists|q: PathView| #[trigger]
        t.dom().contains(q) && t[q].is_selected && q.len() > dir.len() && q.take(dir.len() as int)
            == dir {
        let q = choose|q: PathView| #[trigger]
            t.dom().contains(q) && t[q].is_selected && q.len() > dir.len() && q.take(
                dir.len() as int,
            ) == dir;
        assert(path::is_below(q, dir));
    }
}

/// A new entry is a node of its own, one level below its directory, with nothing selected, expanded
/// or below it; it joins the end of its directory's children, and nothing else changes.
pub proof fn lemma_entry_joins_directory(
    t: TreeView,
    dir: PathView,
    name: ComponentView,
    is_directory: bool,
    p: PathView,
)
    requires
        t.dom().contains(dir),
        t[dir].depth < usize::MAX,
    ensures
        ({
            let c = dir.push(name);
            let u = file_utils::with_entry(t, dir, name, is_directory);
            &&& u.dom().contains(c)
            &&& u[c].path == c
            &&& u[c].is_directory == is_directory
            &&& !u[c].is_selected && !u[c].is_expanded && u[c].children.len() == 0
            &&& u[c].depth == t[dir].depth + 1
            &&& name matches ComponentView::Normal(s) ==> u[c].name == s
            &&& name matches ComponentView::Foreign(_, s) ==> u[c].name == s
            &&& u[dir].children == t[dir].children.push(c)
            &&& u[dir] == (NodeView { children: u[dir].children, ..t[dir] })
            &&& p != c && p != dir ==> (u.dom().contains(p) <==> t.dom().contains(p)) && (
            t.dom().contains(p) ==> u[p] == t[p])
        }),
{
    let c = dir.push(name);
    assert(c.len() != dir.len());
    assert(c.last() == name);
}

/// An entry can be added where its directory is one, its name is a name, and nothing of that name
/// is there yet.
pub proof fn lemma_entry_can_be_added(t: TreeView, dir: PathView, name: ComponentView)
    ensures
        file_utils::can_add(t, dir, name) <==> t.dom().contains(dir) && t[dir].is_directory
            && t[dir].depth < usize::MAX && (name is Normal || name is Foreign)
            && !t.dom().contains(dir.push(name)),
{
}

/// The line of a node: two blanks for each level above it, its name, and a slash where it is a
/// directory.
pub open spec fn line_of(n: NodeView, level: nat) -> Seq<char> {
    Seq::new(2 * level, |i: int| ' ') + n.name + (if n.is_directory {
        seq!['/', '\n']
    } else {
        seq!['\n']
    })
}

/// The lines of some nodes below a root, one after the other.
pub open spec fn lines_of(t: TreeView, root: PathView, list: Seq<PathView>) -> Seq<char>
    decreases list.len(),
{
    if list.len() == 0 {
        Seq::empty()
    } else {
        lines_of(t, root, list.drop_last()) + line_of(
            t[list.last()],
            (list.last().len() - root.len() - 1) as nat,
        )
    }
}

proof fn lemma_indent(level: nat)
    ensures
        text::repeated("  "@, level) == Seq::new(2 * level, |i: int| ' '),
    decreases level,
{
    reveal_strlit("  ");
    if level > 0 {
        lemma_indent((level - 1) as nat);
        assert(text::repeated("  "@, level) =~= Seq::new(2 * level, |i: int| ' '));
    } else {
        assert(text::repeated("  "@, level) =~= Seq::new(2 * level, |i: int| ' '));
    }
}

/// One line of the directory structure is the line of its node.
pub proof fn lemma_line(n: NodeView, level: nat)
    ensures
        file_utils::tree_line(n, level) == line_of(n, level),
{
    reveal_strlit("/\n");
    reveal_strlit("\n");
    assert("/\n"@ =~= seq!['/', '\n']);
    assert("\n"@ =~= seq!['\n']);
    lemma_indent(level);
}

proof fn lemma_lines_in_parts(t: TreeView, root: PathView, a: Seq<PathView>, b: Seq<PathView>)
    ensures
        lines_of(t, root, a + b) == lines_of(t, root, a) + lines_of(t, root, b),
    decreases b.len(),
{
    if b.len() == 0 {
        assert(a + b =~= a);
        assert(lines_of(t, root, a) + lines_of(t, root, b) =~= lines_of(t, root, a));
    } else {
        lemma_lines_in_parts(t, root, a, b.drop_last());
        assert((a + b).drop_last() =~= a + b.drop_last());
        assert((a + b).last() == b.last());
        assert(lines_of(t, root, a + b) =~= lines_of(t, root, a) + lines_of(t, root, b));
    }
}

/// The lines of a list of children, from those of all but the last and of what the last one holds.
proof fn lemma_lines_step(
    t: TreeView,
    root: PathView,
    children: Seq<PathView>,
    level: nat,
    levels: nat,
)
    requires
        children.len() > 0,
        t.dom().contains(children.last()),
        children.last().len() - root.len() - 1 == level,
        !t[children.last()].is_directory ==> t[children.last()].children.len() == 0,
        file_utils::tree_lines(t, children.drop_last(), level, levels) == lines_of(
            t,
            root,
            file_utils::visible_below(
                file_utils::with_expansion(t, true),
                children.drop_last(),
                levels,
            ),
        ),
        levels > 0 ==> file_utils::tree_lines(
            t,
            t[children.last()].children,
            level + 1,
            (levels - 1) as nat,
        ) == lines_of(
            t,
            root,
            file_utils::visible_below(
                file_utils::with_expansion(t, true),
                t[children.last()].children,
                (levels - 1) as nat,
            ),
        ),
    ensures
        file_utils::tree_lines(t, children, level, levels) == lines_of(
            t,
            root,
            file_utils::visible_below(file_utils::with_expansion(t, true), children, levels),
        ),
{
    let u = file_utils::with_expansion(t, true);
    let c = children.last();
    let above = file_utils::visible_below(u, children.drop_last(), levels);
    let before = file_utils::tree_lines(t, children.drop_last(), level, levels);
    let shown = file_utils::visible_below(u, children, levels);
    let written = file_utils::tree_lines(t, children, level, levels);
    lemma_line(t[c], level);
    assert(above.push(c).drop_last() =~= above);
    assert(lines_of(t, root, above.push(c)) == before + line_of(t[c], level));
    if levels > 0 {
        let fewer = (levels - 1) as nat;
        let inner = file_utils::visible_below(u, t[c].children, fewer);
        if t[c].is_directory {
            assert(shown == above.push(c) + inner);
            lemma_lines_in_parts(t, root, above.push(c), inner);
        } else {
            assert(inner =~= Seq::empty());
            assert(shown == above.push(c));
        }
    }
    assert(written =~= lines_of(t, root, shown));
}

/// What the tree says of one child of a directory.
proof fn lemma_child(t: TreeView, root: PathView, d: PathView, i: int)
    requires
        file_utils::linked(t, root),
        t.dom().contains(d),
        root.len() <= d.len(),
        0 <= i < t[d].children.len(),
    ensures
        t.dom().contains(t[d].children[i]),
        t[d].children[i].len() == d.len() + 1,
        !t[t[d].children[i]].is_directory ==> t[t[d].children[i]].children.len() == 0,
{
    let c = t[d].children[i];
    if t[c].children.len() > 0 {
        let e = t[c].children[0];
        assert(t.dom().contains(e) && e.drop_last() == c && e.len() == c.len() + 1);
        assert(e != root);
    }
}

proof fn lemma_lines_below(t: TreeView, root: PathView, d: PathView, n: int, levels: nat)
    requires
        app::tree_linked(t, root),
        t.dom().contains(d),
        root.len() <= d.len(),
        0 <= n <= t[d].children.len(),
    ensures
        file_utils::tree_lines(
            t,
            t[d].children.take(n),
            (d.len() - root.len()) as nat,
            levels,
        ) == lines_of(
            t,
            root,
            file_utils::visible_below(
                file_utils::with_expansion(t, true),
                t[d].children.take(n),
                levels,
            ),
        ),
    decreases levels, n,
{
    let list = t[d].children.take(n);
    let level = (d.len() - root.len()) as nat;
    if n == 0 {
        assert(list.len() == 0);
    } else {
        let c = t[d].children[n - 1];
        assert(list.drop_last() =~= t[d].children.take(n - 1));
        assert(list.last() == c);
        assert(t.dom().contains(c) && c.len() == d.len() + 1 && (!t[c].is_directory
            ==> t[c].children.len() == 0)) by {
            reveal(app::tree_linked);
            lemma_child(t, root, d, n - 1);
        }
        lemma_lines_below(t, root, d, n - 1, levels);
        if levels > 0 {
            let m = t[c].children.len() as int;
            assert(t[c].children.take(m) =~= t[c].children);
            lemma_lines_below(t, root, c, m, (levels - 1) as nat);
            assert((c.len() - root.len()) as nat == level + 1);
        }
        lemma_lines_step(t, root, list, level, levels);
    }
}

/// The directory structure as text has one line for each node below the root, expanded or not and
/// selected or not: they stand in the order in which the tree view shows them once everything is
/// expanded.
pub proof fn lemma_tree_text_has_every_node(t: TreeView, root: PathView, size: nat, p: PathView)
    requires
        file_utils::linked(t, root),
        t.dom().finite(),
        t[root].is_directory,
        size >= t.dom().len(),
    ensures
        ({
            let u = file_utils::with_expansion(t, true);
            let list = file_utils::visible_tree(u, root, size);
            &&& file_utils::tree_text(t, root, size) == lines_of(t, root, list)
            &&& list.no_duplicates()
            &&& list.contains(p) <==> t.dom().contains(p) && p != root
            &&& tree_laws::in_tree_order(t, root, list)
        }),
{
    let u = file_utils::with_expansion(t, true);
    let list = file_utils::visible_tree(u, root, size);
    assert(u.dom() =~= t.dom());
    lemma_expanded_linked(t, root);
    let n = t[root].children.len() as int;
    assert(t[root].children.take(n) =~= t[root].children);
    reveal(app::tree_linked);
    lemma_lines_below(t, root, root, n, size);
    assert(u[root].children == t[root].children);
    tree_laws::lemma_visible_no_duplicates(u, root, size);
    tree_laws::lemma_visible_iff_way_expanded(u, root, size, p);
    tree_laws::lemma_visible_in_order(u, root, size);
    if t.dom().contains(p) && p != root {
        assert forall|k: int| root.len() <= k < p.len() implies (#[trigger] u[p.take(
            k,
        )]).is_expanded by {
            tree_laws::lemma_way_in_tree(t, root, p, k);
            tree_laws::lemma_way_in_tree(t, root, p, k + 1);
            let c = p.take(k + 1);
            assert(c.len() > root.len() && c != root);
            assert(c.drop_last() =~= p.take(k));
        }
    }
    assert forall|e: PathView, x: int, y: int, i: int, j: int|
        t.dom().contains(e) && 0 <= x < y < t[e].children.len() && 0 <= i < list.len() && 0 <= j
            < list.len() && list[i] == #[trigger] t[e].children[x] && list[j]
            == #[trigger] t[e].children[y] && #[trigger] list[i]
            != #[trigger] list[j] implies i < j by {
        assert(u[e].children == t[e].children);
        assert(u.dom().contains(e));
        assert(list[i] == u[e].children[x] && list[j] == u[e].children[y]);
    }
}

proof fn lemma_expanded_linked(t: TreeView, root: PathView)
    requires
        file_utils::linked(t, root),
    ensures
        file_utils::linked(file_utils::with_expansion(t, true), root),
{
    let u = file_utils::with_expansion(t, true);
    assert(u.dom() =~= t.dom());
    assert forall|p: PathView| #[trigger] t.dom().contains(p) implies u[p].path == t[p].path
        && u[p].children == t[p].children && u[p].is_directory == t[p].is_directory && u[p].depth
        == t[p].depth by {}
}

/// What is selected further down and what shows a count go together.
pub proof fn lemma_shown_directories(t: TreeView, dir: PathView)
    requires
        t.dom().contains(dir),
        t[dir].is_directory,
    ensures
        totals::counts_for(t, dir) <==> t[dir].is_selected || file_utils::has_selected_below(t, dir),
{
    lemma_descendants_are_further_down(t, dir);
}

/// A tree that hangs together has each node under its own path, below a directory of the tree that
/// lists it once, one level deeper; only the root has none.
pub proof fn lemma_nodes_hang_together(t: TreeView, root: PathView, p: PathView, i: int)
    requires
        file_utils::linked(t, root),
        t.dom().contains(p),
    ensures
        t.dom().contains(root),
        t[p].path == p,
        t[p].children.no_duplicates(),
        0 <= i < t[p].children.len() ==> t.dom().contains(t[p].children[i])
            && t[p].children[i].drop_last() == p && t[p].children[i].len() == p.len() + 1,
        p != root ==> {
            let d = p.drop_last();
            &&& t.dom().contains(d) && t[d].is_directory
            &&& t[d].children.contains(p)
            &&& t[p].depth == t[d].depth + 1
        },
{
}

/// A directory that is not in the tree has no structure to write out, and shows nothing.
pub proof fn lemma_missing_root(t: TreeView, root: PathView, size: nat)
    requires
        !t.dom().contains(root),
    ensures
        file_utils::tree_text(t, root, size).len() == 0,
        file_utils::visible_tree(t, root, size).len() == 0,
{
}

/// A root that is collapsed, or that is no directory, shows nothing.
pub proof fn lemma_closed_root(t: TreeView, root: PathView, size: nat)
    requires
        !t[root].is_directory || !t[root].is_expanded,
    ensures
        file_utils::visible_tree(t, root, size).len() == 0,
{
}

} // verus!
