//! What texts, numbers and paths look like when they are written out.

use vstd::prelude::*;

use crate::file_utils;
use crate::path;
use crate::path::{ComponentView, PathView};
use crate::text;
use crate::types;

verus! {

/// A text contains another one where something stands before it and something after it.
pub proof fn lemma_contains_is_infix(s: Seq<char>, pat: Seq<char>)
    ensures
        text::contains_seq(s, pat) <==> exists|before: Seq<char>, after: Seq<char>|
            s == #[trigger] (before + pat + after),
{
    if text::contains_seq(s, pat) {
        let at = choose|at: int| text::occurs_at(s, pat, at);
        let before = s.take(at);
        let after = s.skip(at + pat.len());
        assert(s =~= before + pat + after) by {
            assert forall|i: int| at <= i < at + pat.len() implies s[i] == pat[i - at] by {
                assert(s.subrange(at, at + pat.len())[i - at] == s[i]);
            }
        }
    }
    if exists|before: Seq<char>, after: Seq<char>| s == #[trigger] (before + pat + after) {
        let (before, after) = choose|before: Seq<char>, after: Seq<char>|
            s == #[trigger] (before + pat + after);
        let at = before.len() as int;
        assert(s.subrange(at, at + pat.len()) =~= pat);
        assert(text::occurs_at(s, pat, at));
    }
}

/// A text begins with another one where only something after it is added.
pub proof fn lemma_starts_with_is_prefix(s: Seq<char>, pat: Seq<char>)
    ensures
        text::occurs_at(s, pat, 0) <==> pat.is_prefix_of(s),
{
}

/// A joined list is its two parts with the separator between them, wherever it is cut; a list of
/// one text is that text, and a list without texts is empty.
pub proof fn lemma_joined_in_parts(a: Seq<Seq<char>>, b: Seq<Seq<char>>, sep: Seq<char>)
    ensures
        a.len() == 0 ==> text::joined(a, sep) == Seq::<char>::empty(),
        a.len() == 1 ==> text::joined(a, sep) == a[0],
        a.len() > 0 && b.len() > 0 ==> text::joined(a + b, sep) == text::joined(a, sep) + sep
            + text::joined(b, sep),
    decreases b.len(),
{
    if a.len() > 0 && b.len() > 0 {
        let all = a + b;
        assert(all.drop_last() =~= a + b.drop_last());
        assert(all.last() == b.last());
        if b.len() == 1 {
            assert(all.drop_last() =~= a);
            assert(text::joined(all, sep) =~= text::joined(a, sep) + sep + b[0]);
        } else {
            lemma_joined_in_parts(a, b.drop_last(), sep);
            assert(text::joined(all, sep) =~= text::joined(a, sep) + sep + text::joined(b, sep));
        }
    }
}

/// A text written several times is as long as all its copies, and shows one copy after the other.
pub proof fn lemma_repeated_shows_unit(unit: Seq<char>, n: nat, i: int)
    requires
        0 <= i < n * unit.len(),
    ensures
        text::repeated(unit, n).len() == n * unit.len(),
        text::repeated(unit, n)[i] == unit[i % unit.len() as int],
    decreases n,
{
    lemma_repeated_length(unit, n);
    if n > 0 {
        let m = (n - 1) as nat;
        lemma_repeated_length(unit, m);
        let u = unit.len() as int;
        assert(n * u == m * u + u) by (nonlinear_arith)
            requires
                n == m + 1,
        ;
        if i < m * u {
            lemma_repeated_shows_unit(unit, m, i);
        } else {
            vstd::arithmetic::div_mod::lemma_fundamental_div_mod_converse(
                i,
                u,
                m as int,
                i - m * u,
            );
        }
    } else {
        assert(n * unit.len() == 0) by (nonlinear_arith)
            requires
                n == 0,
        ;
    }
}

proof fn lemma_repeated_length(unit: Seq<char>, n: nat)
    ensures
        text::repeated(unit, n).len() == n * unit.len(),
    decreases n,
{
    if n > 0 {
        lemma_repeated_length(unit, (n - 1) as nat);
        assert(n * unit.len() == (n - 1) * unit.len() + unit.len()) by (nonlinear_arith)
            requires
                n > 0,
        ;
    } else {
        assert(n * unit.len() == 0) by (nonlinear_arith)
            requires
                n == 0,
        ;
    }
}

/// The number that a row of decimal digits stands for.
pub open spec fn number_of(digits: Seq<char>) -> int
    decreases digits.len(),
{
    if digits.len() == 0 {
        0
    } else {
        10 * number_of(digits.drop_last()) + (digits.last() as int - '0' as int)
    }
}

/// A number in decimal notation is a row of digits that stands for that number, with no zero at its
/// start but in zero itself.
pub proof fn lemma_decimal_stands_for_number(n: nat)
    ensures
        number_of(text::decimal(n)) == n,
        text::decimal(n).len() > 0,
        forall|i: int|
            0 <= i < text::decimal(n).len() ==> '0' <= #[trigger] text::decimal(n)[i] <= '9',
        n > 0 ==> text::decimal(n)[0] != '0',
        n == 0 ==> text::decimal(n) == seq!['0'],
    decreases n,
{
    let d = text::decimal(n);
    if n < 10 {
        assert(d.drop_last() =~= Seq::<char>::empty());
        assert(number_of(d.drop_last()) == 0);
        assert(d.last() as int == '0' as int + n);
    } else {
        lemma_decimal_stands_for_number(n / 10);
        let before = text::decimal(n / 10);
        assert(d.drop_last() =~= before);
        assert(d.last() as int == '0' as int + n % 10);
        assert forall|i: int| 0 <= i < d.len() implies '0' <= #[trigger] d[i] <= '9' by {
            if i < before.len() {
                assert(d[i] == before[i]);
            }
        }
        assert(d[0] == before[0]);
    }
}

/// A negative number has a minus sign before the digits of its size; other numbers have none.
pub proof fn lemma_signed_decimal(n: int)
    ensures
        n >= 0 ==> text::signed_decimal(n) == text::decimal(n as nat),
        n < 0 ==> text::signed_decimal(n) == seq!['-'] + text::decimal((-n) as nat),
{
    reveal_strlit("-");
    assert("-"@ =~= seq!['-']);
}

/// A path of one component is written as that component: a name as itself, the root as the
/// separator, the special directories as one dot and two dots.
pub proof fn lemma_component_text(c: ComponentView, sep: Seq<char>)
    ensures
        path::path_text(seq![c], sep) == (match c {
            ComponentView::Prefix(s) => s,
            ComponentView::RootDir => sep,
            ComponentView::CurDir => seq!['.'],
            ComponentView::ParentDir => seq!['.', '.'],
            ComponentView::Normal(s) => s,
            ComponentView::Foreign(_, s) => s,
            ComponentView::ForeignPrefix(_, s) => s,
        }),
{
    reveal_strlit(".");
    reveal_strlit("..");
    assert("."@ =~= seq!['.']);
    assert(".."@ =~= seq!['.', '.']);
}

/// A path is written as its two parts with the separator between them, wherever it is cut; after a
/// drive or a root nothing stands between them.
pub proof fn lemma_path_text_in_parts(a: PathView, b: PathView, sep: Seq<char>)
    requires
        a.len() > 0,
        b.len() > 0,
    ensures
        path::path_text(a + b, sep) == path::path_text(a, sep) + (if a.last() is Prefix || a.last() is RootDir || a.last()
            is ForeignPrefix {
            Seq::empty()
        } else {
            sep
        }) + path::path_text(b, sep),
    decreases b.len(),
{
    let all = a + b;
    assert(all.drop_last() =~= a + b.drop_last());
    assert(all.last() == b.last());
    let between = if a.last() is Prefix || a.last() is RootDir || a.last() is ForeignPrefix {
        Seq::empty()
    } else {
        sep
    };
    if b.len() == 1 {
        assert(all.drop_last() =~= a);
        assert(all[all.len() - 2] == a.last());
        assert(path::path_text(all, sep) =~= path::path_text(a, sep) + between + path::path_text(
            b,
            sep,
        ));
    } else {
        lemma_path_text_in_parts(a, b.drop_last(), sep);
        assert(all[all.len() - 2] == b[b.len() - 2]);
        assert(path::path_text(all, sep) =~= path::path_text(a, sep) + between + path::path_text(
            b,
            sep,
        ));
    }
}

/// A path of names is written as the names with separators between them.
pub proof fn lemma_names_are_joined(p: PathView, names: Seq<Seq<char>>, sep: Seq<char>)
    requires
        names.len() == p.len(),
        forall|i: int| 0 <= i < p.len() ==> #[trigger] p[i] == ComponentView::Normal(names[i]),
    ensures
        path::path_text(p, sep) == text::joined(names, sep),
    decreases p.len(),
{
    if p.len() > 1 {
        let rest = p.drop_last();
        assert forall|i: int| 0 <= i < rest.len() implies #[trigger] rest[i]
            == ComponentView::Normal(names.drop_last()[i]) by {
            assert(rest[i] == p[i]);
        }
        lemma_names_are_joined(rest, names.drop_last(), sep);
        assert(p[p.len() - 2] is Normal);
        assert(p[p.len() - 1] is Normal);
    } else if p.len() == 1 {
        assert(p[0] == ComponentView::Normal(names[0]));
    }
}

/// The parent of an entry is the directory that holds it; an empty path, a root and a drive have
/// no parent.
pub proof fn lemma_parent_of_entry(dir: PathView, c: ComponentView)
    ensures
        path::parent_of(dir.push(c)) == (match c {
            ComponentView::Prefix(_) => None,
            ComponentView::RootDir => None,
            ComponentView::ForeignPrefix(_, _) => None,
            _ => Some(dir),
        }),
        path::parent_of(Seq::empty()) is None,
{
    assert(dir.push(c).drop_last() =~= dir);
}

/// The name of an entry is its last component, and the entry of a name is one longer than its
/// directory.
pub proof fn lemma_name_of_entry(dir: PathView, name: Seq<char>, units: Seq<u16>)
    ensures
        path::child_of(dir, name) == dir.push(ComponentView::Normal(name)),
        path::file_name_of(path::child_of(dir, name)) == Some(name),
        path::shown_name_of(path::child_of(dir, name)) == Some(name),
        path::file_name_of(dir.push(ComponentView::Foreign(units, name))) is None,
        path::shown_name_of(dir.push(ComponentView::Foreign(units, name))) == Some(name),
{
}

/// What is relative to a base comes back when the base is put before it, and only paths that
/// continue the base are relative to it.
pub proof fn lemma_relative_continues_base(p: PathView, base: PathView, rest: PathView)
    ensures
        path::relative_to(base + rest, base) == Some(rest),
        path::relative_to(p, base) matches Some(r) ==> p == base + r,
        path::relative_to(p, base) is Some <==> base.is_prefix_of(p),
{
    let all = base + rest;
    assert(all.subrange(0, base.len() as int) =~= base);
    assert(all.skip(base.len() as int) =~= rest);
    if base.is_prefix_of(p) {
        assert(p =~= base + p.skip(base.len() as int));
    }
}

/// A directory is an ancestor of a path where taking parents leads from the path to it.
pub proof fn lemma_ancestor_by_parents(a: PathView, p: PathView)
    ensures
        path::is_ancestor(a, p) <==> (path::parent_of(p) matches Some(d) && (d == a
            || path::is_ancestor(a, d))),
{
    if let Some(d) = path::parent_of(p) {
        assert(d == p.drop_last());
        if path::is_ancestor(a, p) && d != a {
            assert(a.len() < d.len()) by {
                if a.len() == d.len() {
                    assert(a =~= d);
                }
            }
            assert(d.subrange(0, a.len() as int) =~= a);
            assert forall|j: int| a.len() <= j < d.len() implies (#[trigger] d[j]).has_parent() by {
                assert(d[j] == p[j]);
            }
        }
        if d == a {
            assert(p.subrange(0, a.len() as int) =~= a);
        }
        if path::is_ancestor(a, d) {
            assert(p.subrange(0, a.len() as int) =~= d.subrange(0, a.len() as int));
            assert forall|j: int| a.len() <= j < p.len() implies (#[trigger] p[j]).has_parent() by {
                if j < d.len() {
                    assert(d[j] == p[j]);
                }
            }
        }
    } else if path::is_ancestor(a, p) {
        assert(p[p.len() - 1].has_parent());
    }
}

/// Whether a text may be handed to a backend as a file: it is not empty, does not begin with a
/// dash, and holds no two dots in a row.
pub open spec fn is_harmless(s: Seq<char>) -> bool {
    &&& s.len() > 0
    &&& s[0] != '-'
    &&& forall|i: int| 0 <= i < s.len() - 1 ==> !(#[trigger] s[i] == '.' && s[i + 1] == '.')
}

/// The texts that are handed to a backend are the harmless ones.
pub proof fn lemma_safe_is_harmless(s: Seq<char>)
    ensures
        file_utils::is_safe_argument(s) <==> is_harmless(s),
{
    reveal_strlit("..");
    reveal_strlit("-");
    if s.len() > 0 {
        assert(s.subrange(0, 1).len() == 1 && s.subrange(0, 1)[0] == s[0]);
        assert(text::occurs_at(s, "-"@, 0) <==> s[0] == '-') by {
            if s[0] == '-' {
                assert(s.subrange(0, 1) =~= "-"@);
            }
        }
    }
    if text::contains_seq(s, ".."@) {
        let at = choose|at: int| text::occurs_at(s, ".."@, at);
        let part = s.subrange(at, at + 2);
        assert(part[0] == s[at] && part[1] == s[at + 1]);
        assert(s[at] == '.' && s[at + 1] == '.');
    }
    if !text::contains_seq(s, ".."@) {
        assert forall|i: int| 0 <= i < s.len() - 1 implies !(#[trigger] s[i] == '.' && s[i + 1]
            == '.') by {
            if s[i] == '.' && s[i + 1] == '.' {
                assert(s.subrange(i, i + 2) =~= ".."@);
                assert(text::occurs_at(s, ".."@, i));
            }
        }
    }
}

/// The text of a file for a backend: where it lies below the directory, and where that text is
/// harmless, and no other files have one.
pub open spec fn file_argument(file: PathView, dir: PathView, sep: Seq<char>) -> Option<Seq<char>> {
    if dir.is_prefix_of(file) && is_harmless(path::path_text(file.skip(dir.len() as int), sep)) {
        Some(path::path_text(file.skip(dir.len() as int), sep))
    } else {
        None
    }
}

/// A file is handed to a backend by its place below the working directory, where it lies there and
/// its place is harmless as an argument.
pub proof fn lemma_valid_argument(file: PathView, dir: PathView, sep: Seq<char>)
    ensures
        file_utils::valid_argument(file, dir, sep) == file_argument(file, dir, sep),
{
    lemma_safe_is_harmless(path::path_text(file.skip(dir.len() as int), sep));
}

/// Only a name at the end of a path is the name of the path; the node of a path without one has an
/// empty name.
pub proof fn lemma_no_name(p: PathView)
    ensures
        p.len() == 0 || !(p.last() is Normal) ==> path::file_name_of(p) is None,
        p.len() == 0 || !(p.last() is Normal || p.last() is Foreign) ==> path::shown_name_of(p)
            is None && types::node_name(p).len() == 0,
        p.len() > 0 && p.last() is Normal ==> types::node_name(p) == p.last()->Normal_0,
        p.len() > 0 && p.last() is Foreign ==> types::node_name(p) == p.last()->Foreign_1,
{
}

/// A path has a parent unless it ends where a path begins, and only names are names.
pub proof fn lemma_component_sorts(c: ComponentView)
    ensures
        c.has_parent() <==> c is CurDir || c is ParentDir || c is Normal || c is Foreign,
        c.is_name() <==> c is Normal || c is Foreign,
{
}

/// A path lies below a directory where it is that directory's path and something more.
pub proof fn lemma_below_directory(dir: PathView, rest: PathView, other: PathView)
    ensures
        path::is_below(dir + rest, dir) <==> rest.len() > 0,
        !dir.is_prefix_of(other) ==> !path::is_below(other, dir),
{
    let p = dir + rest;
    assert(p.subrange(0, dir.len() as int) =~= dir);
    if rest.len() == 0 {
        assert(p =~= dir);
    } else {
        assert(p.len() != dir.len());
    }
}

} // verus!
