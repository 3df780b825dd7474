//! Operations on the file tree.

use vstd::prelude::*;
use vstd::string::*;

use crate::path;
use crate::path::{Component, ComponentView, FilePath, PathView};
use crate::path_map::PathMap;
use crate::text;
use crate::types;
use crate::types::{FileNode, FileTree, NodeView, TreeView};

verus! {

/// Whether the node at a path is a selected file.
pub open spec fn selected_file(t: TreeView) -> spec_fn(PathView) -> bool {
    |p: PathView| t[p].is_selected && !t[p].is_directory
}

/// The selected files, in the order of the tree.
pub open spec fn selected_files(t: TreeView, order: Seq<PathView>) -> Seq<PathView> {
    order.filter(selected_file(t))
}

/// Whether anything below `dir` is selected.
pub open spec fn has_selected_below(t: TreeView, dir: PathView) -> bool {
    exists|p: PathView| #[trigger]
        t.dom().contains(p) && t[p].is_selected && path::is_below(p, dir)
}

/// For each directory of the tree, whether anything below it is selected.
pub open spec fn descendants_map(t: TreeView) -> Map<PathView, bool> {
    Map::new(
        |p: PathView| t.dom().contains(p) && t[p].is_directory,
        |p: PathView| has_selected_below(t, p),
    )
}

/// The tree with the nodes that `which` picks selected or unselected.
pub open spec fn with_selection(
    t: TreeView,
    which: spec_fn(PathView) -> bool,
    selected: bool,
) -> TreeView {
    Map::new(
        |p: PathView| t.dom().contains(p),
        |p: PathView|
            if which(p) {
                NodeView { is_selected: selected, ..t[p] }
            } else {
                t[p]
            },
    )
}

/// The tree with all its directories expanded or collapsed.
pub open spec fn with_expansion(t: TreeView, expanded: bool) -> TreeView {
    Map::new(
        |p: PathView| t.dom().contains(p),
        |p: PathView|
            if t[p].is_directory {
                NodeView { is_expanded: expanded, ..t[p] }
            } else {
                t[p]
            },
    )
}

/// The tree after the selection of `path` has been toggled: the node and all below it take the
/// opposite of the node's own state.
pub open spec fn with_toggled_selection(t: TreeView, path: PathView) -> TreeView {
    with_selection(t, |p: PathView| path.is_prefix_of(p), !t[path].is_selected)
}

/// The nodes of the list `children` that are in the tree, each followed by what shows below it.
/// Only expanded directories show what they hold. `levels` bounds the nesting.
pub open spec fn visible_below(t: TreeView, children: Seq<PathView>, levels: nat) -> Seq<PathView>
    decreases levels, children.len(),
{
    if children.len() == 0 {
        Seq::empty()
    } else {
        let above = visible_below(t, children.drop_last(), levels);
        let c = children.last();
        if !t.dom().contains(c) {
            above
        } else if t[c].is_directory && t[c].is_expanded && levels > 0 {
            above.push(c) + visible_below(t, t[c].children, (levels - 1) as nat)
        } else {
            above.push(c)
        }
    }
}

/// The list that the tree view shows: what the root holds, without the root itself.
/// A tree of `size` nodes is nested at most `size` levels deep.
pub open spec fn visible_tree(t: TreeView, root: PathView, size: nat) -> Seq<PathView> {
    if t.dom().contains(root) && t[root].is_directory && t[root].is_expanded {
        visible_below(t, t[root].children, size)
    } else {
        Seq::empty()
    }
}

/// One line of the directory structure.
pub open spec fn tree_line(n: NodeView, level: nat) -> Seq<char> {
    text::repeated("  "@, level) + n.name + (if n.is_directory {
        "/\n"@
    } else {
        "\n"@
    })
}

/// The lines of the nodes of the list `children` that are in the tree, each followed by the lines
/// of what it holds.
pub open spec fn tree_lines(
    t: TreeView,
    children: Seq<PathView>,
    level: nat,
    levels: nat,
) -> Seq<char>
    decreases levels, children.len(),
{
    if children.len() == 0 {
        Seq::empty()
    } else {
        let above = tree_lines(t, children.drop_last(), level, levels);
        let c = children.last();
        if !t.dom().contains(c) {
            above
        } else if levels > 0 {
            above + tree_line(t[c], level) + tree_lines(
                t,
                t[c].children,
                level + 1,
                (levels - 1) as nat,
            )
        } else {
            above + tree_line(t[c], level)
        }
    }
}

/// The directory structure below `root` as text, one line per node.
pub open spec fn tree_text(t: TreeView, root: PathView, size: nat) -> Seq<char> {
    if t.dom().contains(root) {
        tree_lines(t, t[root].children, 0, size)
    } else {
        Seq::empty()
    }
}

/// Whether a relative path may be handed to a backend: it is not empty, holds no `..` and does not
/// look like a command line option.
pub open spec fn is_safe_argument(s: Seq<char>) -> bool {
    s.len() > 0 && !text::contains_seq(s, ".."@) && !text::occurs_at(s, "-"@, 0)
}

/// The text of `file` relative to `dir`, where `file` lies in `dir` and the text is safe.
pub open spec fn valid_argument(file: PathView, dir: PathView, sep: Seq<char>) -> Option<Seq<char>> {
    match path::relative_to(file, dir) {
        Some(rel) => if is_safe_argument(path::path_text(rel, sep)) {
            Some(path::path_text(rel, sep))
        } else {
            None
        },
        None => None,
    }
}

/// Taking one element more into account in a filter.
pub proof fn lemma_filter_step<A>(s: Seq<A>, pred: spec_fn(A) -> bool, i: int)
    requires
        0 <= i < s.len(),
    ensures
        s.take(i + 1).filter(pred) == (if pred(s[i]) {
            s.take(i).filter(pred).push(s[i])
        } else {
            s.take(i).filter(pred)
        }),
{
    reveal(Seq::filter);
    assert(s.take(i + 1).drop_last() =~= s.take(i));
}

/// Gets the selected files of the tree.
pub fn get_selected_files(tree: &FileTree) -> (r: Vec<FilePath>)
    requires
        tree.wf(),
    ensures
        path::paths(r@) == selected_files(tree@, tree.keys()),
{
    let mut r: Vec<FilePath> = Vec::new();
    let mut i: usize = 0;
    let ghost pred = selected_file(tree@);
    assert(tree.keys().take(0).filter(pred) =~= Seq::empty()) by {
        reveal(Seq::filter);
    }
    assert(path::paths(r@) =~= tree.keys().take(0).filter(pred));
    while i < tree.len()
        invariant
            tree.wf(),
            i <= tree.keys().len(),
            pred == selected_file(tree@),
            path::paths(r@) == tree.keys().take(i as int).filter(pred),
        decreases tree.keys().len() - i,
    {
        proof {
            lemma_filter_step(tree.keys(), pred, i as int);
        }
        let ghost before = path::paths(r@);
        let node = tree.value_at(i);
        if node.is_selected && !node.is_directory {
            r.push(tree.key_at(i).clone());
            assert(path::paths(r@) =~= before.push(tree.keys()[i as int]));
        }
        i = i + 1;
    }
    assert(tree.keys().take(i as int) =~= tree.keys());
    r
}

/// Checks if a directory has any selected descendants.
pub fn has_selected_descendants(tree: &FileTree, dir: &FilePath) -> (r: bool)
    requires
        tree.wf(),
    ensures
        r == has_selected_below(tree@, dir@),
{
    let mut i: usize = 0;
    while i < tree.len()
        invariant
            tree.wf(),
            i <= tree.keys().len(),
            forall|k: int|
                0 <= k < i ==> !(tree@[#[trigger] tree.keys()[k]].is_selected && path::is_below(
                    tree.keys()[k],
                    dir@,
                )),
        decreases tree.keys().len() - i,
    {
        let node = tree.value_at(i);
        let key = tree.key_at(i);
        if node.is_selected && key.starts_with(dir) && !key.same(dir) {
            proof {
                tree.lemma_key_at(i as int);
            }
            return true;
        }
        i = i + 1;
    }
    proof {
        tree.lemma_keys();
        assert forall|p: PathView| #[trigger] tree@.dom().contains(p) implies !(tree@[p].is_selected
            && path::is_below(p, dir@)) by {
            let k = tree.keys().index_of(p);
            assert(tree.keys()[k] == p);
        }
    }
    false
}

/// Builds a map of directories that have selected descendants.
pub fn build_directories_with_descendants_map(tree: &FileTree) -> (r: PathMap<bool>)
    requires
        tree.wf(),
    ensures
        r.wf(),
        r@ == descendants_map(tree@),
{
    let mut r: PathMap<bool> = PathMap::new();
    let mut i: usize = 0;
    while i < tree.len()
        invariant
            tree.wf(),
            r.wf(),
            i <= tree.keys().len(),
            forall|p: PathView| #[trigger]
                r@.dom().contains(p) <==> tree.keys().take(i as int).contains(p)
                    && tree@[p].is_directory,
            forall|p: PathView| #[trigger] r@.dom().contains(p) ==> r@[p] == has_selected_below(
                tree@,
                p,
            ),
        decreases tree.keys().len() - i,
    {
        let ghost before = r@;
        let ghost key = tree.keys()[i as int];
        if tree.value_at(i).is_directory {
            let dir = tree.key_at(i).clone();
            let below = has_selected_descendants(tree, &dir);
            r.insert(dir, below);
        }
        proof {
            let n = tree.keys().take(i as int);
            let m = tree.keys().take(i + 1);
            assert(m =~= n.push(key));
            assert forall|p: PathView| m.contains(p) <==> n.contains(p) || p == key by {
                if n.contains(p) {
                    assert(m[n.index_of(p)] == p);
                }
                assert(m[i as int] == key);
            }
        }
        i = i + 1;
    }
    proof {
        tree.lemma_keys();
        assert(tree.keys().take(i as int) =~= tree.keys());
        assert(r@ =~= descendants_map(tree@));
    }
    r
}

/// Expands or collapses all directories.
fn set_all_expanded(tree: &mut FileTree, expanded: bool)
    requires
        old(tree).wf(),
    ensures
        final(tree).wf(),
        final(tree).keys() == old(tree).keys(),
        final(tree)@ == with_expansion(old(tree)@, expanded),
{
    let mut i: usize = 0;
    let ghost t0 = tree@;
    while i < tree.len()
        invariant
            tree.wf(),
            old(tree).wf(),
            t0 == old(tree)@,
            tree.keys() == old(tree).keys(),
            tree@.dom() == t0.dom(),
            i <= tree.keys().len(),
            forall|k: int|
                0 <= k < i ==> tree@[#[trigger] tree.keys()[k]] == with_expansion(
                    t0,
                    expanded,
                )[tree.keys()[k]],
            forall|k: int|
                i <= k < tree.keys().len() ==> tree@[#[trigger] tree.keys()[k]] == t0[tree.keys()[k]],
        decreases tree.keys().len() - i,
    {
        proof {
            tree.lemma_key_at(i as int);
        }
        if tree.value_at(i).is_directory {
            tree.set_expanded_at(i, expanded);
            assert(tree@.dom() =~= t0.dom());
        }
        i = i + 1;
    }
    proof {
        old(tree).lemma_keys();
        assert(tree@ =~= with_expansion(t0, expanded)) by {
            assert forall|p: PathView| t0.dom().contains(p) implies tree@[p] == with_expansion(
                t0,
                expanded,
            )[p] by {
                let k = tree.keys().index_of(p);
                assert(tree.keys()[k] == p);
            }
        }
    }
}

/// Expands all directories.
pub fn expand_all_directories(tree: &mut FileTree)
    requires
        old(tree).wf(),
    ensures
        final(tree).wf(),
        final(tree).keys() == old(tree).keys(),
        final(tree)@ == with_expansion(old(tree)@, true),
{
    set_all_expanded(tree, true);
}

/// Collapses all directories.
pub fn collapse_all_directories(tree: &mut FileTree)
    requires
        old(tree).wf(),
    ensures
        final(tree).wf(),
        final(tree).keys() == old(tree).keys(),
        final(tree)@ == with_expansion(old(tree)@, false),
{
    set_all_expanded(tree, false);
}

/// Selects or unselects the nodes that are marked.
fn set_selected_marked(
    tree: &mut FileTree,
    marks: &Vec<bool>,
    selected: bool,
    Ghost(which): Ghost<spec_fn(PathView) -> bool>,
)
    requires
        old(tree).wf(),
        marks@.len() == old(tree).keys().len(),
        forall|k: int|
            0 <= k < marks@.len() ==> #[trigger] marks@[k] == which(old(tree).keys()[k]),
    ensures
        final(tree).wf(),
        final(tree).keys() == old(tree).keys(),
        final(tree)@ == with_selection(old(tree)@, which, selected),
{
    let mut i: usize = 0;
    let ghost t0 = tree@;
    let ghost t1 = with_selection(t0, which, selected);
    while i < tree.len()
        invariant
            tree.wf(),
            old(tree).wf(),
            t0 == old(tree)@,
            t1 == with_selection(t0, which, selected),
            tree.keys() == old(tree).keys(),
            tree@.dom() == t0.dom(),
            i <= tree.keys().len(),
            marks@.len() == tree.keys().len(),
            forall|k: int|
                0 <= k < marks@.len() ==> #[trigger] marks@[k] == which(tree.keys()[k]),
            forall|k: int| 0 <= k < i ==> tree@[#[trigger] tree.keys()[k]] == t1[tree.keys()[k]],
            forall|k: int|
                i <= k < tree.keys().len() ==> tree@[#[trigger] tree.keys()[k]] == t0[tree.keys()[k]],
        decreases tree.keys().len() - i,
    {
        proof {
            tree.lemma_key_at(i as int);
        }
        if marks[i] {
            tree.set_selected_at(i, selected);
            assert(tree@.dom() =~= t0.dom());
        }
        i = i + 1;
    }
    proof {
        old(tree).lemma_keys();
        assert(tree@ =~= t1) by {
            assert forall|p: PathView| t0.dom().contains(p) implies tree@[p] == t1[p] by {
                let k = tree.keys().index_of(p);
                assert(tree.keys()[k] == p);
            }
        }
    }
}

/// Selects every item of the list of visible paths, files and directories.
/// Fails, and changes nothing, where one of them is not in the tree.
pub fn select_all_visible_files(tree: &mut FileTree, visible: &Vec<FilePath>) -> (r: Result<
    (),
    String,
>)
    requires
        old(tree).wf(),
    ensures
        final(tree).wf(),
        final(tree).keys() == old(tree).keys(),
        r is Ok <==> forall|i: int|
            0 <= i < visible@.len() ==> old(tree)@.dom().contains(#[trigger] path::paths(
                visible@,
            )[i]),
        r is Ok ==> final(tree)@ == with_selection(
            old(tree)@,
            |p: PathView| path::paths(visible@).contains(p),
            true,
        ),
        r is Err ==> final(tree)@ == old(tree)@ && r->Err_0@ == "Path not found in file tree"@,
{
    let mut i: usize = 0;
    while i < visible.len()
        invariant
            tree == old(tree),
            old(tree).wf(),
            i <= visible@.len(),
            forall|k: int|
                0 <= k < i ==> tree@.dom().contains(#[trigger] path::paths(visible@)[k]),
        decreases visible.len() - i,
    {
        if !tree.contains_key(&visible[i]) {
            assert(!tree@.dom().contains(path::paths(visible@)[i as int]));
            return Err("Path not found in file tree".to_string());
        }
        i = i + 1;
    }
    let ghost which = |p: PathView| path::paths(visible@).contains(p);
    let mut marks: Vec<bool> = Vec::new();
    let mut j: usize = 0;
    while j < tree.len()
        invariant
            tree == old(tree),
            j <= tree.keys().len(),
            marks@.len() == j,
            which == (|p: PathView| path::paths(visible@).contains(p)),
            forall|k: int| 0 <= k < j ==> #[trigger] marks@[k] == which(tree.keys()[k]),
        decreases tree.keys().len() - j,
    {
        marks.push(path::list_holds(visible, tree.key_at(j)));
        j = j + 1;
    }
    set_selected_marked(tree, &marks, true, Ghost(which));
    Ok(())
}

/// Unselects every item of the tree.
pub fn unselect_all_items(tree: &mut FileTree)
    requires
        old(tree).wf(),
    ensures
        final(tree).wf(),
        final(tree).keys() == old(tree).keys(),
        final(tree)@ == with_selection(old(tree)@, |p: PathView| true, false),
{
    let ghost which = |p: PathView| true;
    let mut marks: Vec<bool> = Vec::new();
    let mut j: usize = 0;
    while j < tree.len()
        invariant
            tree == old(tree),
            j <= tree.keys().len(),
            marks@.len() == j,
            which == (|p: PathView| true),
            forall|k: int| 0 <= k < j ==> #[trigger] marks@[k] == which(tree.keys()[k]),
        decreases tree.keys().len() - j,
    {
        marks.push(true);
        j = j + 1;
    }
    set_selected_marked(tree, &marks, false, Ghost(which));
}

/// Toggles the selection of a node. All that lies below the node takes the node's new state.
/// Fails, and changes nothing, where the path is not in the tree.
pub fn toggle_selection_recursive(tree: &mut FileTree, path: &FilePath) -> (r: Result<(), String>)
    requires
        old(tree).wf(),
    ensures
        final(tree).wf(),
        final(tree).keys() == old(tree).keys(),
        r is Ok <==> old(tree)@.dom().contains(path@),
        r is Ok ==> final(tree)@ == with_toggled_selection(old(tree)@, path@),
        r is Err ==> final(tree)@ == old(tree)@ && r->Err_0@ == "Path not found in file tree"@,
{
    let selected = match tree.get(path) {
        Some(node) => !node.is_selected,
        None => {
            return Err("Path not found in file tree".to_string());
        },
    };
    let ghost which = |p: PathView| path@.is_prefix_of(p);
    let mut marks: Vec<bool> = Vec::new();
    let mut j: usize = 0;
    while j < tree.len()
        invariant
            tree == old(tree),
            j <= tree.keys().len(),
            marks@.len() == j,
            which == (|p: PathView| path@.is_prefix_of(p)),
            forall|k: int| 0 <= k < j ==> #[trigger] marks@[k] == which(tree.keys()[k]),
        decreases tree.keys().len() - j,
    {
        marks.push(tree.key_at(j).starts_with(path));
        j = j + 1;
    }
    set_selected_marked(tree, &marks, selected, Ghost(which));
    Ok(())
}

/// Adds what shows of a list of children to the visible list.
fn push_visible(tree: &FileTree, children: &Vec<FilePath>, levels: usize, out: &mut Vec<FilePath>)
    requires
        tree.wf(),
    ensures
        path::paths(final(out)@) == path::paths(old(out)@) + visible_below(
            tree@,
            path::paths(children@),
            levels as nat,
        ),
    decreases levels,
{
    let ghost list = path::paths(children@);
    let ghost start = path::paths(out@);
    let mut i: usize = 0;
    assert(start + visible_below(tree@, list.take(0), levels as nat) =~= start);
    while i < children.len()
        invariant
            tree.wf(),
            i <= children@.len(),
            list == path::paths(children@),
            path::paths(out@) == start + visible_below(tree@, list.take(i as int), levels as nat),
        decreases children.len() - i,
    {
        proof {
            assert(list.take(i + 1).drop_last() =~= list.take(i as int));
        }
        let ghost before = path::paths(out@);
        match tree.get(&children[i]) {
            Some(node) => {
                out.push(children[i].clone());
                assert(path::paths(out@) =~= before.push(list[i as int]));
                if node.is_directory && node.is_expanded && levels > 0 {
                    push_visible(tree, &node.children, levels - 1, out);
                }
            },
            None => {},
        }
        assert(path::paths(out@) =~= start + visible_below(
            tree@,
            list.take(i + 1),
            levels as nat,
        ));
        i = i + 1;
    }
    assert(list.take(i as int) =~= list);
}

/// Flattens the tree to the list that the tree view shows, without the root itself.
pub fn flatten_visible_tree(tree: &FileTree, root: &FilePath) -> (r: Vec<FilePath>)
    requires
        tree.wf(),
    ensures
        path::paths(r@) == visible_tree(tree@, root@, tree.keys().len()),
{
    let mut r: Vec<FilePath> = Vec::new();
    assert(path::paths(r@) =~= Seq::empty());
    if let Some(node) = tree.get(root) {
        if node.is_directory && node.is_expanded {
            push_visible(tree, &node.children, tree.len(), &mut r);
            assert(path::paths(r@) =~= visible_tree(tree@, root@, tree.keys().len()));
        }
    }
    r
}

/// Adds the lines of a list of children to the directory structure.
fn append_lines(
    tree: &FileTree,
    children: &Vec<FilePath>,
    indent: &str,
    Ghost(level): Ghost<nat>,
    levels: usize,
    out: &mut String,
)
    requires
        tree.wf(),
        indent@ == text::repeated("  "@, level),
    ensures
        final(out)@ == old(out)@ + tree_lines(
            tree@,
            path::paths(children@),
            level,
            levels as nat,
        ),
    decreases levels,
{
    let ghost list = path::paths(children@);
    let ghost start = out@;
    let mut i: usize = 0;
    let deeper = text::concat2(indent, "  ");
    assert(start + tree_lines(tree@, list.take(0), level, levels as nat) =~= start);
    while i < children.len()
        invariant
            tree.wf(),
            i <= children@.len(),
            list == path::paths(children@),
            indent@ == text::repeated("  "@, level),
            deeper@ == text::repeated("  "@, level + 1),
            out@ == start + tree_lines(tree@, list.take(i as int), level, levels as nat),
        decreases children.len() - i,
    {
        proof {
            assert(list.take(i + 1).drop_last() =~= list.take(i as int));
        }
        match tree.get(&children[i]) {
            Some(node) => {
                out.append(indent);
                out.append(node.name.as_str());
                if node.is_directory {
                    out.append("/\n");
                } else {
                    out.append("\n");
                }
                if levels > 0 {
                    append_lines(
                        tree,
                        &node.children,
                        deeper.as_str(),
                        Ghost(level + 1),
                        levels - 1,
                        out,
                    );
                }
            },
            None => {},
        }
        assert(out@ =~= start + tree_lines(tree@, list.take(i + 1), level, levels as nat));
        i = i + 1;
    }
    assert(list.take(i as int) =~= list);
}

/// Generates the text of the complete directory structure below `root`.
pub fn generate_file_tree_text(tree: &FileTree, root: &FilePath) -> (r: String)
    requires
        tree.wf(),
    ensures
        r@ == tree_text(tree@, root@, tree.keys().len()),
{
    let mut r = String::new();
    if let Some(node) = tree.get(root) {
        let indent = String::new();
        append_lines(tree, &node.children, indent.as_str(), Ghost(0nat), tree.len(), &mut r);
        assert(r@ =~= tree_text(tree@, root@, tree.keys().len()));
    }
    r
}

/// Whether a relative path may be handed to a backend.
pub fn safe_argument(s: &str) -> (r: bool)
    ensures
        r == is_safe_argument(s@),
{
    !s.is_empty() && !text::contains_text(s, "..") && !text::starts_with_text(s, "-")
}

/// Validates a file path for a backend: the text of the path relative to the working directory,
/// where the file lies in it and the text is safe as a command line argument.
pub fn validate_file_path(file: &FilePath, working_directory: &FilePath, sep: &str) -> (r: Option<
    String,
>)
    ensures
        match r {
            Some(s) => valid_argument(file@, working_directory@, sep@) == Some(s@),
            None => valid_argument(file@, working_directory@, sep@) is None,
        },
{
    match file.strip_prefix(working_directory) {
        Some(rel) => {
            let s = rel.to_text(sep);
            if safe_argument(s.as_str()) {
                Some(s)
            } else {
                None
            }
        },
        None => None,
    }
}

/// A copy of the tree.
pub fn copy_tree(tree: &FileTree) -> (r: FileTree)
    requires
        tree.wf(),
    ensures
        r.wf(),
        r@ == tree@,
        r.keys() == tree.keys(),
{
    let mut r: FileTree = PathMap::new();
    let mut i: usize = 0;
    while i < tree.len()
        invariant
            tree.wf(),
            r.wf(),
            i <= tree.keys().len(),
            r.keys() == tree.keys().take(i as int),
            forall|k: int| 0 <= k < i ==> r@[#[trigger] tree.keys()[k]] == tree@[tree.keys()[k]],
        decreases tree.keys().len() - i,
    {
        let ghost before = r;
        proof {
            r.lemma_keys();
            if r.keys().contains(tree.keys()[i as int]) {
                let j = r.keys().index_of(tree.keys()[i as int]);
                assert(tree.keys()[j] == tree.keys()[i as int]);
            }
            assert(tree.keys().take(i + 1) =~= tree.keys().take(i as int).push(
                tree.keys()[i as int],
            ));
        }
        r.insert(tree.key_at(i).clone(), tree.value_at(i).clone());
        i = i + 1;
    }
    proof {
        assert(tree.keys().take(i as int) =~= tree.keys());
        r.lemma_keys();
        tree.lemma_keys();
        assert forall|p: PathView| tree@.dom().contains(p) implies r@[p] == tree@[p] by {
            let k = tree.keys().index_of(p);
            assert(tree.keys()[k] == p);
        }
        assert(r@ =~= tree@);
    }
    r
}

/// The tree hangs together below `root`: each node stands under its own path, each child is one
/// component longer than its directory, and each node but the root is a child of its directory.
pub open spec fn linked(t: TreeView, root: PathView) -> bool {
    &&& t.dom().contains(root)
    &&& forall|p: PathView| #[trigger] t.dom().contains(p) ==> t[p].path == p
    &&& forall|p: PathView| #[trigger] t.dom().contains(p) ==> t[p].children.no_duplicates()
    &&& forall|p: PathView, i: int|
        t.dom().contains(p) && 0 <= i < t[p].children.len() ==> {
            let c = #[trigger] t[p].children[i];
            t.dom().contains(c) && c.len() == p.len() + 1 && c.drop_last() == p
        }
    &&& forall|p: PathView| #[trigger]
        t.dom().contains(p) && p != root ==> {
            let d = p.drop_last();
            p.len() > root.len() && t.dom().contains(d) && t[d].is_directory
                && t[d].children.contains(p) && t[p].depth == t[d].depth + 1
        }
}

/// The tree of a root directory without entries.
pub fn new_tree(root: FilePath) -> (r: FileTree)
    ensures
        r.wf(),
        linked(r@, root@),
        r.keys() == seq![root@],
        r@ == map![root@ => (NodeView {
            path: root@,
            name: types::node_name(root@),
            is_directory: true,
            is_selected: false,
            is_expanded: false,
            children: Seq::empty(),
            depth: 0,
        })],
{
    let mut r: FileTree = PathMap::new();
    let ghost p = root@;
    r.insert(root.clone(), FileNode::new(root, true, 0));
    proof {
        assert(r.keys() =~= seq![p]);
        assert(r@.dom() =~= set![p]);
        assert(linked(r@, p));
    }
    r
}

/// The tree with a new entry in the directory `dir`.
pub open spec fn with_entry(
    t: TreeView,
    dir: PathView,
    name: ComponentView,
    is_directory: bool,
) -> TreeView {
    let c = dir.push(name);
    t.insert(dir, NodeView { children: t[dir].children.push(c), ..t[dir] }).insert(
        c,
        NodeView {
            path: c,
            name: types::node_name(c),
            is_directory,
            is_selected: false,
            is_expanded: false,
            children: Seq::empty(),
            depth: (t[dir].depth + 1) as usize,
        },
    )
}

/// Whether the entry `name` can be added to the directory `dir`: `dir` is a directory of the tree,
/// `name` is a name, the entry is not there yet, and the nesting stays in the range of the depth.
pub open spec fn can_add(t: TreeView, dir: PathView, name: ComponentView) -> bool {
    &&& t.dom().contains(dir)
    &&& t[dir].is_directory
    &&& t[dir].depth < usize::MAX
    &&& name.is_name()
    &&& !t.dom().contains(dir.push(name))
}

/// Adds the entry `name` to the directory `dir`. Does nothing, and returns false, where it cannot
/// be added.
pub fn add_entry(tree: &mut FileTree, dir: &FilePath, name: &str, is_directory: bool) -> (r: bool)
    requires
        old(tree).wf(),
    ensures
        final(tree).wf(),
        r == can_add(old(tree)@, dir@, ComponentView::Normal(name@)),
        r ==> final(tree)@ == with_entry(
            old(tree)@,
            dir@,
            ComponentView::Normal(name@),
            is_directory,
        ),
        r ==> final(tree).keys() == old(tree).keys().push(path::child_of(dir@, name@)),
        !r ==> final(tree)@ == old(tree)@ && final(tree).keys() == old(tree).keys(),
        forall|root: PathView| linked(old(tree)@, root) ==> linked(final(tree)@, root),
{
    add_component(tree, dir, Component::Normal(name.to_string()), is_directory)
}

/// Adds the entry with the name `component` to the directory `dir`. Does nothing, and returns
/// false, where it cannot be added.
pub fn add_component(
    tree: &mut FileTree,
    dir: &FilePath,
    component: Component,
    is_directory: bool,
) -> (r: bool)
    requires
        old(tree).wf(),
    ensures
        final(tree).wf(),
        r == can_add(old(tree)@, dir@, component@),
        r ==> final(tree)@ == with_entry(old(tree)@, dir@, component@, is_directory),
        r ==> final(tree).keys() == old(tree).keys().push(dir@.push(component@)),
        !r ==> final(tree)@ == old(tree)@ && final(tree).keys() == old(tree).keys(),
        forall|root: PathView| linked(old(tree)@, root) ==> linked(final(tree)@, root),
{
    let ghost name = component@;
    if !component.is_name() {
        return false;
    }
    let i: usize = match tree.position(dir) {
        Some(i) => i,
        None => {
            return false;
        },
    };
    let node = tree.value_at(i);
    let depth = node.depth;
    let child = dir.with_component(component);
    if !node.is_directory || depth == usize::MAX || tree.contains_key(&child) {
        return false;
    }
    let ghost t0 = tree@;
    let ghost c = child@;
    tree.push_child_at(i, child.clone());
    tree.insert(child.clone(), FileNode::new(child, is_directory, depth + 1));
    proof {
        assert(c.drop_last() =~= dir@);
        assert(tree@ =~= with_entry(t0, dir@, name, is_directory));
        assert forall|root: PathView| linked(t0, root) implies linked(tree@, root) by {
            lemma_entry_linked(t0, root, dir@, name, is_directory);
        }
    }
    true
}

proof fn lemma_entry_linked(
    t: TreeView,
    root: PathView,
    dir: PathView,
    name: ComponentView,
    is_directory: bool,
)
    requires
        linked(t, root),
        can_add(t, dir, name),
    ensures
        linked(with_entry(t, dir, name, is_directory), root),
{
    let c = dir.push(name);
    let u = with_entry(t, dir, name, is_directory);
    assert(c.drop_last() =~= dir);
    assert(u[dir].children == t[dir].children.push(c));
    assert(u[dir].children[t[dir].children.len() as int] == c);
    assert(dir.len() >= root.len());
    if t[dir].children.contains(c) {
        let i = t[dir].children.index_of(c);
        assert(t[dir].children[i] == c);
    }
    assert forall|p: PathView| #[trigger] u.dom().contains(p) implies u[p].children.no_duplicates() by {
        if p != c && p != dir {
            assert(t.dom().contains(p));
        }
        if p == dir {
            assert(t.dom().contains(dir));
            assert forall|i: int, j: int|
                0 <= i < u[p].children.len() && 0 <= j < u[p].children.len() && i
                    != j implies u[p].children[i] != u[p].children[j] by {
                if i < t[dir].children.len() && j < t[dir].children.len() {
                } else if i < t[dir].children.len() {
                    assert(t[dir].children.contains(t[dir].children[i]));
                } else if j < t[dir].children.len() {
                    assert(t[dir].children.contains(t[dir].children[j]));
                }
            }
        }
    }
    assert forall|p: PathView, i: int|
        u.dom().contains(p) && 0 <= i < u[p].children.len() implies {
        let q = #[trigger] u[p].children[i];
        u.dom().contains(q) && q.len() == p.len() + 1 && q.drop_last() == p
    } by {
        if p == dir {
            if i < t[dir].children.len() {
                assert(t[p].children[i] == u[p].children[i]);
            }
        } else if p != c {
            assert(t[p].children[i] == u[p].children[i]);
        }
    }
    assert forall|p: PathView| #[trigger] u.dom().contains(p) && p != root implies {
        let d = p.drop_last();
        p.len() > root.len() && u.dom().contains(d) && u[d].is_directory && u[d].children.contains(
            p,
        ) && u[p].depth == u[d].depth + 1
    } by {
        let d = p.drop_last();
        if p != c {
            assert(t.dom().contains(p));
            assert(t[d].children.contains(p));
            if d == dir {
                let i = t[d].children.index_of(p);
                assert(u[d].children[i] == p);
            }
            assert(d != c);
        }
    }
}

} // verus!
