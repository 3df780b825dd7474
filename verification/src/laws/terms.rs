//! What the terms that laws are stated in stand for, in plain sequences, maps and texts.

use vstd::prelude::*;

use crate::app::AppView;
use crate::file_utils;
use crate::laws::packing;
use crate::laws::session;
use crate::laws::texts;
use crate::laws::totals;
use crate::laws::tree;
use crate::path;
use crate::path::{ComponentView, PathView};
use crate::repomix_integration;
use crate::text;
use crate::token_totals;
use crate::token_totals::CountsView;
use crate::tree_laws;
use crate::types::{NodeView, OutputFormat, TreeView};

verus! {

/// The tokens of a file are those that were entered for it last, and none without a number; what is
/// entered for other files makes no difference.
pub proof fn lemma_tokens_of_file(counts: CountsView, f: PathView, g: PathView, n: usize)
    ensures
        totals::tokens_of(counts.insert(f, Some(n)), f) == n,
        totals::tokens_of(counts.insert(f, None), f) == 0,
        totals::tokens_of(counts.remove(f), f) == 0,
        f != g ==> totals::tokens_of(counts.insert(g, Some(n)), f) == totals::tokens_of(counts, f),
        f != g ==> totals::tokens_of(counts.insert(g, None), f) == totals::tokens_of(counts, f),
{
}

/// A sum over files is zero for none, the file's own tokens for one, and for two lists one after
/// the other the sum of both sums.
pub proof fn lemma_sum_of_files(counts: CountsView, f: PathView, a: Seq<PathView>, b: Seq<PathView>)
    ensures
        totals::sum_of(counts, Seq::empty()) == 0,
        totals::sum_of(counts, seq![f]) == totals::tokens_of(counts, f),
        totals::sum_of(counts, a + b) == totals::sum_of(counts, a) + totals::sum_of(counts, b),
    decreases a.len(),
{
    assert(seq![f].drop_first() =~= Seq::<PathView>::empty());
    assert(totals::sum_of(counts, seq![f].drop_first()) == 0);
    if a.len() == 0 {
        assert(a + b =~= b);
    } else {
        lemma_sum_of_files(counts, f, a.drop_first(), b);
        assert((a + b).drop_first() =~= a.drop_first() + b);
        assert((a + b).first() == a.first());
    }
}

/// The sums that are shown follow the same rules.
pub proof fn lemma_total_of_files(
    counts: CountsView,
    f: PathView,
    n: usize,
    a: Seq<PathView>,
    b: Seq<PathView>,
)
    ensures
        token_totals::total(counts, Seq::empty()) == 0,
        token_totals::total(counts.insert(f, Some(n)), seq![f]) == n,
        token_totals::total(counts.insert(f, None), seq![f]) == 0,
        token_totals::total(counts.remove(f), seq![f]) == 0,
        token_totals::total(counts, a + b) == token_totals::total(counts, a) + token_totals::total(
            counts,
            b,
        ),
{
    totals::lemma_total_is_sum(counts, Seq::empty());
    totals::lemma_total_is_sum(counts.insert(f, Some(n)), seq![f]);
    totals::lemma_total_is_sum(counts.insert(f, None), seq![f]);
    totals::lemma_total_is_sum(counts.remove(f), seq![f]);
    totals::lemma_total_is_sum(counts, a + b);
    totals::lemma_total_is_sum(counts, a);
    totals::lemma_total_is_sum(counts, b);
    lemma_sum_of_files(counts, f, a, b);
    lemma_sum_of_files(counts.insert(f, Some(n)), f, a, b);
    lemma_sum_of_files(counts.insert(f, None), f, a, b);
    lemma_sum_of_files(counts.remove(f), f, a, b);
    lemma_tokens_of_file(counts, f, f, n);
}

/// A file lies in a directory where its path is that of the directory and at least one component
/// more, none of which begins a path anew.
pub proof fn lemma_inside_directory(dir: PathView, rest: PathView, other: PathView)
    ensures
        ({
            let goes_on = rest.len() > 0 && forall|i: int|
                0 <= i < rest.len() ==> !(#[trigger] rest[i] is Prefix || rest[i] is RootDir
                    || rest[i] is ForeignPrefix);
            &&& totals::lies_inside(dir, dir + rest) <==> goes_on
            &&& path::is_ancestor(dir, dir + rest) <==> goes_on
        }),
        !dir.is_prefix_of(other) ==> !totals::lies_inside(dir, other) && !path::is_ancestor(
            dir,
            other,
        ),
{
    let file = dir + rest;
    assert(file.take(dir.len() as int) =~= dir);
    assert(file.subrange(0, dir.len() as int) =~= dir);
    if rest.len() > 0 {
        if totals::lies_inside(dir, file) || path::is_ancestor(dir, file) {
            assert forall|i: int| 0 <= i < rest.len() implies !(#[trigger] rest[i] is Prefix
                || rest[i] is RootDir || rest[i] is ForeignPrefix) by {
                assert(file[dir.len() + i] == rest[i]);
                assert(file[dir.len() + i].has_parent() || !path::is_ancestor(dir, file));
            }
        }
        if forall|i: int|
            0 <= i < rest.len() ==> !(#[trigger] rest[i] is Prefix || rest[i] is RootDir
                || rest[i] is ForeignPrefix) {
            assert forall|j: int| dir.len() <= j < file.len() implies (
            #[trigger] file[j]).has_parent() by {
                assert(file[j] == rest[j - dir.len()]);
            }
        }
    }
    if totals::lies_inside(dir, other) {
        assert(other.subrange(0, dir.len() as int) =~= other.take(dir.len() as int));
    }
}

/// A picked file is a node of the tree that is selected and no directory.
pub proof fn lemma_picked_file(t: TreeView, p: PathView, n: NodeView)
    ensures
        totals::picked(t.insert(p, n), p) <==> n.is_selected && !n.is_directory,
        !totals::picked(t.remove(p), p),
{
}

/// A directory counts where it is selected, or where a selected node stands further down; a file
/// never does, and neither does what is not in the tree.
pub proof fn lemma_counting_directory(t: TreeView, p: PathView, rest: PathView)
    ensures
        t.dom().contains(p) && t[p].is_directory && t[p].is_selected ==> totals::counts_for(t, p)
            && token_totals::shows_directory(t, p),
        t.dom().contains(p) && t[p].is_directory && rest.len() > 0 && t.dom().contains(p + rest)
            && t[p + rest].is_selected ==> totals::counts_for(t, p)
            && token_totals::shows_directory(t, p),
        !t.dom().contains(p) || !t[p].is_directory ==> !totals::counts_for(t, p)
            && !token_totals::shows_directory(t, p),
        !t[p].is_selected && (forall|q: PathView|
            #![trigger t.dom().contains(q)]
            t.dom().contains(q) && q != p && p.is_prefix_of(q) ==> !t[q].is_selected)
            ==> !totals::counts_for(t, p) && !token_totals::shows_directory(t, p),
        token_totals::shows_directory(t, p) == totals::counts_for(t, p),
{
    totals::lemma_counts_for(t, p);
    let q = p + rest;
    if rest.len() > 0 && t.dom().contains(q) {
        assert(q.take(p.len() as int) =~= p);
    }
    if totals::counts_for(t, p) && !t[p].is_selected {
        let w = choose|w: PathView| #[trigger]
            t.dom().contains(w) && t[w].is_selected && w.len() > p.len() && w.take(p.len() as int)
                == p;
        assert(w.subrange(0, p.len() as int) =~= w.take(p.len() as int));
        assert(p.is_prefix_of(w));
    }
}

/// A count is kept for whatever is selected, and for directories that count.
pub proof fn lemma_kept_count(t: TreeView, p: PathView)
    ensures
        t.dom().contains(p) && t[p].is_selected ==> totals::keeps_count(t, p),
        totals::counts_for(t, p) ==> totals::keeps_count(t, p),
        totals::keeps_count(t, p) ==> t.dom().contains(p) && (t[p].is_selected
            || totals::counts_for(t, p)),
        totals::keeps_count(t, p) == token_totals::shows_count(t, p),
{
    totals::lemma_keeps_count(t, p);
}

/// The first thousand files are those that are left when a list is cut there.
pub proof fn lemma_first_thousand(files: Seq<PathView>, p: PathView)
    ensures
        files.len() <= 1000 ==> (totals::in_first_thousand(files, p) <==> files.contains(p))
            && token_totals::limited(files) == files,
        files.len() > 1000 ==> (totals::in_first_thousand(files, p) <==> files.take(1000).contains(
            p,
        )) && token_totals::limited(files) == files.take(1000),
{
    totals::lemma_limited(files, p);
}

/// A list names the selection where it has each selected file once and nothing else.
pub proof fn lemma_named_selection(t: TreeView, files: Seq<PathView>)
    ensures
        session::names_selection(t, files) <==> files.no_duplicates() && forall|f: PathView|
            #[trigger] files.contains(f) <==> t.dom().contains(f) && t[f].is_selected
                && !t[f].is_directory,
{
    if files.no_duplicates() && (forall|f: PathView|
        #[trigger] files.contains(f) <==> t.dom().contains(f) && t[f].is_selected
            && !t[f].is_directory) {
        assert forall|f: PathView| #[trigger] files.contains(f) <==> totals::picked(t, f) by {}
    }
    if session::names_selection(t, files) {
        assert forall|f: PathView| #[trigger] files.contains(f) <==> t.dom().contains(f)
            && t[f].is_selected && !t[f].is_directory by {
            assert(files.contains(f) <==> totals::picked(t, f));
        }
    }
}

/// The order of an app is one where it has each node of the tree once and nothing else.
pub proof fn lemma_named_nodes(v: AppView)
    ensures
        session::in_order(v) <==> v.state.order.no_duplicates() && v.state.tree.dom()
            == v.state.order.to_set(),
{
    if session::in_order(v) {
        assert(v.state.tree.dom() =~= v.state.order.to_set());
    }
    if v.state.tree.dom() == v.state.order.to_set() {
        assert forall|p: PathView| #[trigger] v.state.tree.dom().contains(p)
            <==> v.state.order.contains(p) by {
            assert(v.state.order.to_set().contains(p) <==> v.state.order.contains(p));
        }
    }
}

/// A text is harmless where it is not empty, does not begin with a dash, and has no two dots in a
/// row anywhere.
pub proof fn lemma_harmless_text(s: Seq<char>, a: Seq<char>, b: Seq<char>)
    ensures
        !texts::is_harmless(Seq::empty()),
        !texts::is_harmless(seq!['-'] + s),
        !texts::is_harmless(a + seq!['.', '.'] + b),
        s.len() > 0 && s[0] != '-' && (forall|i: int|
            0 < i < s.len() ==> !(s[i - 1] == '.' && #[trigger] s[i] == '.')) ==> texts::is_harmless(
            s,
        ),
        texts::is_harmless(s) == file_utils::is_safe_argument(s),
{
    texts::lemma_safe_is_harmless(s);
    let bad = a + seq!['.', '.'] + b;
    assert(bad[a.len() as int] == '.' && bad[a.len() as int + 1] == '.');
    assert((seq!['-'] + s)[0] == '-');
    if s.len() > 0 && s[0] != '-' && (forall|i: int|
        0 < i < s.len() ==> !(s[i - 1] == '.' && #[trigger] s[i] == '.')) {
        assert forall|i: int| 0 <= i < s.len() - 1 implies !(#[trigger] s[i] == '.' && s[i + 1]
            == '.') by {
            assert(!(s[(i + 1) - 1] == '.' && s[i + 1] == '.'));
        }
    }
}

/// The argument for a file is its place below the directory, where that is harmless; a file that is
/// not below the directory has none.
pub proof fn lemma_argument_of_file(
    dir: PathView,
    rest: PathView,
    other: PathView,
    sep: Seq<char>,
)
    ensures
        ({
            let place = path::path_text(rest, sep);
            &&& texts::is_harmless(place) ==> texts::file_argument(dir + rest, dir, sep) == Some(
                place,
            ) && file_utils::valid_argument(dir + rest, dir, sep) == Some(place)
            &&& !texts::is_harmless(place) ==> texts::file_argument(dir + rest, dir, sep) is None
                && file_utils::valid_argument(dir + rest, dir, sep) is None
        }),
        !dir.is_prefix_of(other) ==> texts::file_argument(other, dir, sep) is None
            && file_utils::valid_argument(other, dir, sep) is None,
{
    let file = dir + rest;
    texts::lemma_valid_argument(file, dir, sep);
    texts::lemma_valid_argument(other, dir, sep);
    assert(file.subrange(0, dir.len() as int) =~= dir);
    assert(file.skip(dir.len() as int) =~= rest);
}

/// The name of a file in a list is its argument, where that has no comma.
pub proof fn lemma_name_in_list(file: PathView, dir: PathView, sep: Seq<char>)
    ensures
        match texts::file_argument(file, dir, sep) {
            None => packing::listed_name(file, dir, sep) is None
                && repomix_integration::direct_argument(file, dir, sep) is None,
            Some(s) => if s.contains(',') {
                packing::listed_name(file, dir, sep) is None
                    && repomix_integration::direct_argument(file, dir, sep) is None
            } else {
                packing::listed_name(file, dir, sep) == Some(s)
                    && repomix_integration::direct_argument(file, dir, sep) == Some(s)
            },
        },
{
    packing::lemma_listed_name(file, dir, sep);
    if let Some(s) = texts::file_argument(file, dir, sep) {
        if s.contains(',') {
            assert(s[s.index_of(',')] == ',');
        } else {
            assert forall|i: int| 0 <= i < s.len() implies #[trigger] s[i] != ',' by {
                if s[i] == ',' {
                    assert(s.contains(','));
                }
            }
        }
    }
}

/// A file with a name has its place for patterns in the directory above that name, where the whole
/// place is harmless; a file without a name, or outside of the working directory, has none.
pub proof fn lemma_place_for_patterns(
    dir: PathView,
    above: PathView,
    name: Seq<char>,
    last: ComponentView,
    other: PathView,
    sep: Seq<char>,
)
    ensures
        ({
            let rest = above.push(ComponentView::Normal(name));
            let found = if name.len() > 0 && texts::is_harmless(path::path_text(rest, sep)) {
                Some((above, name))
            } else {
                None
            };
            packing::pattern_place(dir + rest, dir, sep) == found
                && repomix_integration::pattern_entry(dir + rest, dir, sep) == found
        }),
        !(last is Normal) ==> packing::pattern_place(dir + above.push(last), dir, sep) is None
            && repomix_integration::pattern_entry(dir + above.push(last), dir, sep) is None,
        !dir.is_prefix_of(other) ==> packing::pattern_place(other, dir, sep) is None
            && repomix_integration::pattern_entry(other, dir, sep) is None,
{
    let rest = above.push(ComponentView::Normal(name));
    let file = dir + rest;
    assert(file.subrange(0, dir.len() as int) =~= dir);
    assert(file.skip(dir.len() as int) =~= rest);
    assert(rest.drop_last() =~= above);
    packing::lemma_pattern_place(file, dir, sep);
    let foreign = dir + above.push(last);
    assert(foreign.skip(dir.len() as int) =~= above.push(last));
    packing::lemma_pattern_place(foreign, dir, sep);
    packing::lemma_pattern_place(other, dir, sep);
}

/// The files of one directory get a wildcard where there are more than ten of them, and else each
/// its own pattern.
pub proof fn lemma_pattern_of_file(
    files: Seq<PathView>,
    file: PathView,
    dir: PathView,
    sep: Seq<char>,
    place: PathView,
    name: Seq<char>,
    fellows: Seq<PathView>,
)
    requires
        packing::pattern_place(file, dir, sep) == Some((place, name)),
        fellows == files.filter(
            |f: PathView|
                match packing::pattern_place(f, dir, sep) {
                    Some(e) => e.0 == place,
                    None => false,
                },
        ),
    ensures
        ({
            let start = path::path_text(place, sep) + "/"@;
            &&& place.len() == 0 && fellows.len() <= 10 ==> packing::pattern_for(
                files,
                file,
                dir,
                sep,
            ) == name
            &&& place.len() == 0 && fellows.len() > 10 ==> packing::pattern_for(
                files,
                file,
                dir,
                sep,
            ) == "**"@
            &&& place.len() > 0 && fellows.len() <= 10 ==> packing::pattern_for(
                files,
                file,
                dir,
                sep,
            ) == start + name
            &&& place.len() > 0 && fellows.len() > 10 ==> packing::pattern_for(
                files,
                file,
                dir,
                sep,
            ) == start + "**"@
        }),
{
    reveal_strlit("**");
    reveal_strlit("/");
    assert("**"@ =~= seq!['*', '*']);
    assert("/"@ =~= seq!['/']);
    let pred = |f: PathView|
        match packing::pattern_place(f, dir, sep) {
            Some(e) => e.0 == place,
            None => false,
        };
    let other = packing::is_placed_in(dir, sep, place);
    token_totals::lemma_filter_agree(files, pred, other);
    assert(files.filter(other) == fellows);
    assert(Seq::<char>::empty() + name =~= name);
    assert(Seq::<char>::empty() + "**"@ =~= "**"@);
}

/// The directory structure is set off in the manner of each format.
pub proof fn lemma_frame_of_structure()
    ensures
        packing::opening(OutputFormat::Xml) == "<directory_structure>\n"@,
        packing::closing(OutputFormat::Xml) == "</directory_structure>\n\n"@,
        packing::opening(OutputFormat::Markdown) == "## Directory Structure\n\n```\n"@,
        packing::closing(OutputFormat::Markdown) == "\n```\n\n"@,
        packing::opening(OutputFormat::PlainText) == "Directory Structure:\n"@,
        packing::closing(OutputFormat::PlainText) == "\n"@,
{
}

/// The line of a node is its indent, its name, a slash for a directory, and the end of the line; the
/// lines of several nodes stand one after the other.
pub proof fn lemma_lines_of_nodes(
    t: TreeView,
    root: PathView,
    a: Seq<PathView>,
    p: PathView,
    level: nat,
)
    requires
        p.len() == root.len() + 1 + level,
    ensures
        tree::lines_of(t, root, Seq::empty()).len() == 0,
        tree::lines_of(t, root, a.push(p)) == tree::lines_of(t, root, a) + text::repeated(
            seq![' ', ' '],
            level,
        ) + t[p].name + (if t[p].is_directory {
            "/\n"@
        } else {
            "\n"@
        }),
{
    reveal_strlit("  ");
    assert("  "@ =~= seq![' ', ' ']);
    tree::lemma_line(t[p], level);
    assert(a.push(p).drop_last() =~= a);
    let line = tree::line_of(t[p], level);
    assert(tree::lines_of(t, root, a.push(p)) == tree::lines_of(t, root, a) + line);
    assert(tree::lines_of(t, root, a) + line =~= tree::lines_of(t, root, a) + text::repeated(
        seq![' ', ' '],
        level,
    ) + t[p].name + (if t[p].is_directory {
        "/\n"@
    } else {
        "\n"@
    }));
}

/// The way to a node is expanded where each directory on it is.
pub proof fn lemma_expanded_way(t: TreeView, p: PathView, c: ComponentView, from: nat)
    requires
        from <= p.len(),
    ensures
        tree_laws::way_expanded(t, p, p.len()),
        tree_laws::way_expanded(t, p.push(c), from) <==> t[p].is_expanded
            && tree_laws::way_expanded(t, p, from),
{
    let q = p.push(c);
    assert(q.take(p.len() as int) =~= p);
    if tree_laws::way_expanded(t, q, from) {
        assert(t[q.take(p.len() as int)].is_expanded);
        assert forall|k: int| from <= k < p.len() implies (#[trigger] t[p.take(
            k,
        )]).is_expanded by {
            assert(q.take(k) =~= p.take(k));
            assert(t[q.take(k)].is_expanded);
        }
    }
    if t[p].is_expanded && tree_laws::way_expanded(t, p, from) {
        assert forall|k: int| from <= k < q.len() implies (#[trigger] t[q.take(
            k,
        )]).is_expanded by {
            if k < p.len() {
                assert(q.take(k) =~= p.take(k));
                assert(t[p.take(k)].is_expanded);
            }
        }
    }
}

/// In a list in tree order a directory stands before each of its entries, what stands between a
/// directory and something in it is in it too, and children stand in the order of their directory.
pub proof fn lemma_tree_order(
    t: TreeView,
    root: PathView,
    shown: Seq<PathView>,
    dir: PathView,
    c: ComponentView,
    rest: PathView,
    other: PathView,
    x: int,
    y: int,
)
    requires
        tree_laws::in_tree_order(t, root, shown),
        shown.no_duplicates(),
        shown.contains(dir.push(c)),
        dir != root,
    ensures
        shown.contains(dir),
        shown.index_of(dir) < shown.index_of(dir.push(c)),
        shown.contains(other) && shown.contains(dir + rest) && shown.index_of(dir)
            < shown.index_of(other) < shown.index_of(dir + rest) ==> dir.is_prefix_of(other),
        t.dom().contains(dir) && 0 <= x < y < t[dir].children.len() && t[dir].children[x]
            != t[dir].children[y] && shown.contains(t[dir].children[x]) && shown.contains(
            t[dir].children[y],
        ) ==> shown.index_of(t[dir].children[x]) < shown.index_of(t[dir].children[y]),
{
    let e = dir.push(c);
    let i = shown.index_of(e);
    assert(e.drop_last() =~= dir);
    assert(shown[i].drop_last() != root);
    let j = choose|j: int| 0 <= j < i && #[trigger] shown[j] == shown[i].drop_last();
    assert(shown[j] == dir);
    assert(shown.contains(dir));
    assert(shown.index_of(dir) == j) by {
        assert(shown[shown.index_of(dir)] == shown[j]);
    }
    if shown.contains(other) && shown.contains(dir + rest) && shown.index_of(dir)
        < shown.index_of(other) < shown.index_of(dir + rest) {
        let k = shown.index_of(dir + rest);
        assert((dir + rest).subrange(0, dir.len() as int) =~= dir);
        assert(shown[j].is_prefix_of(shown[k]));
        assert(shown[shown.index_of(other)] == other);
    }
    if t.dom().contains(dir) && 0 <= x < y < t[dir].children.len() && t[dir].children[x]
        != t[dir].children[y] && shown.contains(t[dir].children[x]) && shown.contains(
        t[dir].children[y],
    ) {
        let a = shown.index_of(t[dir].children[x]);
        let b = shown.index_of(t[dir].children[y]);
        assert(shown[a] == t[dir].children[x] && shown[b] == t[dir].children[y]);
        assert(shown[a] != shown[b]);
    }
}

/// A row of digits stands for the number that it has in the decimal system.
pub proof fn lemma_digits(digits: Seq<char>, d: char)
    ensures
        texts::number_of(Seq::empty()) == 0,
        texts::number_of(digits.push(d)) == 10 * texts::number_of(digits) + (d as int - '0' as int),
{
    assert(digits.push(d).drop_last() =~= digits);
}

} // verus!
