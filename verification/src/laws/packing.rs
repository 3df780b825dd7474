//! What the backends are told to pack, and what is made of their output.

use vstd::prelude::*;

use crate::file_utils;
use crate::laws::lists;
use crate::laws::texts;
use crate::path;
use crate::path::{ComponentView, PathView};
use crate::platform::Platform;
use crate::process;
use crate::repomix_integration;
use crate::repomix_integration::{PreparedView, RepomixView};
use crate::text;
use crate::types::{OutputFormat, RepomixOptions, TreeView};
use crate::yek_integration;

verus! {

/// The arguments of yek are all the files that lie in the root directory and have a harmless place
/// there, each by its place, and nothing else; they stand in the order of the files. The result
/// gives the place that each argument has in the list of files.
pub proof fn lemma_yek_gets_every_file(files: Seq<PathView>, dir: PathView, sep: Seq<char>) -> (places:
    Seq<int>)
    ensures
        ({
            let args = yek_integration::yek_arguments(files, dir, sep);
            &&& places.len() == args.len()
            &&& forall|k: int|
                0 <= k < places.len() ==> 0 <= #[trigger] places[k] < files.len()
                    && texts::file_argument(files[places[k]], dir, sep) == Some(args[k])
            &&& forall|j: int, k: int|
                0 <= j < k < places.len() ==> #[trigger] places[j] < #[trigger] places[k]
            &&& forall|i: int|
                0 <= i < files.len() && texts::file_argument(#[trigger] files[i], dir, sep) is Some
                    ==> places.contains(i)
        }),
{
    let pick = |f: PathView| file_utils::valid_argument(f, dir, sep);
    let places = lists::lemma_filter_map_places(files, pick);
    assert forall|f: PathView| #[trigger] pick(f) == texts::file_argument(f, dir, sep) by {
        texts::lemma_valid_argument(f, dir, sep);
    }
    let args = yek_integration::yek_arguments(files, dir, sep);
    assert(args == files.filter_map(pick));
    assert forall|k: int| 0 <= k < places.len() implies 0 <= #[trigger] places[k] < files.len()
        && texts::file_argument(files[places[k]], dir, sep) == Some(args[k]) by {
        assert(pick(files[places[k]]) == Some(args[k]));
    }
    assert forall|i: int|
        0 <= i < files.len() && texts::file_argument(
            #[trigger] files[i],
            dir,
            sep,
        ) is Some implies places.contains(i) by {
        assert(pick(files[i]) is Some);
    }
    places
}

/// A file that yek can be handed is one of its arguments, wherever it lies below the root
/// directory.
pub proof fn lemma_yek_leaves_no_file_out(
    files: Seq<PathView>,
    dir: PathView,
    sep: Seq<char>,
    rest: PathView,
)
    requires
        files.contains(dir + rest),
        texts::is_harmless(path::path_text(rest, sep)),
    ensures
        yek_integration::yek_arguments(files, dir, sep).contains(path::path_text(rest, sep)),
{
    let places = lemma_yek_gets_every_file(files, dir, sep);
    let args = yek_integration::yek_arguments(files, dir, sep);
    let f = dir + rest;
    let i = files.index_of(f);
    texts::lemma_relative_continues_base(f, dir, rest);
    assert(files[i] == f);
    assert(f.skip(dir.len() as int) =~= rest);
    let k = places.index_of(i);
    assert(args[k] == path::path_text(rest, sep));
}

/// The name of a file in the list that repomix gets: its place below the working directory, where
/// that is harmless and holds no comma.
pub open spec fn listed_name(file: PathView, dir: PathView, sep: Seq<char>) -> Option<Seq<char>> {
    match texts::file_argument(file, dir, sep) {
        Some(s) => if forall|i: int| 0 <= i < s.len() ==> #[trigger] s[i] != ',' {
            Some(s)
        } else {
            None
        },
        None => None,
    }
}

proof fn lemma_comma(s: Seq<char>)
    ensures
        text::contains_seq(s, ","@) <==> exists|i: int| 0 <= i < s.len() && #[trigger] s[i] == ',',
{
    reveal_strlit(",");
    if text::contains_seq(s, ","@) {
        let at = choose|at: int| text::occurs_at(s, ","@, at);
        assert(s.subrange(at, at + 1)[0] == s[at]);
    }
    if exists|i: int| 0 <= i < s.len() && #[trigger] s[i] == ',' {
        let i = choose|i: int| 0 <= i < s.len() && #[trigger] s[i] == ',';
        assert(s.subrange(i, i + 1) =~= ","@);
        assert(text::occurs_at(s, ","@, i));
    }
}

/// The names that are listed are the arguments for single files.
pub proof fn lemma_listed_name(file: PathView, dir: PathView, sep: Seq<char>)
    ensures
        repomix_integration::direct_argument(file, dir, sep) == listed_name(file, dir, sep),
{
    texts::lemma_valid_argument(file, dir, sep);
    if let Some(s) = texts::file_argument(file, dir, sep) {
        lemma_comma(s);
    }
}

/// Up to a thousand files are handed to repomix one by one: all that lie in the working directory
/// and have a harmless place without a comma there, each by its place, and nothing else; they stand
/// in the order of the files. The result gives the place of each in the list of files.
pub proof fn lemma_repomix_gets_every_file(files: Seq<PathView>, dir: PathView, sep: Seq<char>) -> (
places: Seq<int>)
    requires
        files.len() <= 1000,
    ensures
        ({
            let list = repomix_integration::included(files, dir, sep);
            &&& places.len() == list.len()
            &&& forall|k: int|
                0 <= k < places.len() ==> 0 <= #[trigger] places[k] < files.len() && listed_name(
                    files[places[k]],
                    dir,
                    sep,
                ) == Some(list[k])
            &&& forall|j: int, k: int|
                0 <= j < k < places.len() ==> #[trigger] places[j] < #[trigger] places[k]
            &&& forall|i: int|
                0 <= i < files.len() && listed_name(#[trigger] files[i], dir, sep) is Some
                    ==> places.contains(i)
        }),
{
    let pick = |f: PathView| repomix_integration::direct_argument(f, dir, sep);
    let places = lists::lemma_filter_map_places(files, pick);
    let list = repomix_integration::included(files, dir, sep);
    assert(list == files.filter_map(pick));
    assert forall|k: int| 0 <= k < places.len() implies 0 <= #[trigger] places[k] < files.len()
        && listed_name(files[places[k]], dir, sep) == Some(list[k]) by {
        lemma_listed_name(files[places[k]], dir, sep);
        assert(pick(files[places[k]]) == Some(list[k]));
    }
    assert forall|i: int|
        0 <= i < files.len() && listed_name(
            #[trigger] files[i],
            dir,
            sep,
        ) is Some implies places.contains(i) by {
        lemma_listed_name(files[i], dir, sep);
        assert(pick(files[i]) is Some);
    }
    places
}

/// The directory and the name of a file that a pattern can stand for, below the working directory.
pub open spec fn pattern_place(file: PathView, dir: PathView, sep: Seq<char>) -> Option<
    (PathView, Seq<char>),
> {
    let rest = file.skip(dir.len() as int);
    if dir.is_prefix_of(file) && texts::is_harmless(path::path_text(rest, sep)) && rest.last()
        is Normal && (rest.last()->Normal_0).len() > 0 {
        Some((rest.drop_last(), rest.last()->Normal_0))
    } else {
        None
    }
}

/// The places for patterns are the directories and names of files.
pub proof fn lemma_pattern_place(file: PathView, dir: PathView, sep: Seq<char>)
    ensures
        repomix_integration::pattern_entry(file, dir, sep) == pattern_place(file, dir, sep),
{
    let rest = file.skip(dir.len() as int);
    texts::lemma_safe_is_harmless(path::path_text(rest, sep));
    if dir.is_prefix_of(file) && rest.len() == 0 {
        assert(path::path_text(rest, sep).len() == 0);
    }
}

/// Whether a file has its place for a pattern in the directory `place`.
pub open spec fn is_placed_in(
    dir: PathView,
    sep: Seq<char>,
    place: PathView,
) -> spec_fn(PathView) -> bool {
    |f: PathView| pattern_place(f, dir, sep) is Some && (pattern_place(f, dir, sep)->0).0 == place
}

/// The pattern that a file falls under: its own name in its directory, or a wildcard where more
/// than ten of the files are in that directory.
pub open spec fn pattern_for(
    files: Seq<PathView>,
    file: PathView,
    dir: PathView,
    sep: Seq<char>,
) -> Seq<char> {
    let (place, name) = pattern_place(file, dir, sep)->0;
    let start = if place.len() == 0 {
        Seq::empty()
    } else {
        path::path_text(place, sep) + seq!['/']
    };
    if files.filter(is_placed_in(dir, sep, place)).len() > 10 {
        start + seq!['*', '*']
    } else {
        start + name
    }
}

spec fn group_size(entries: Seq<(PathView, Seq<char>)>, place: PathView) -> nat {
    entries.filter(repomix_integration::in_directory(place)).len()
}

spec fn entry_pattern(
    entries: Seq<(PathView, Seq<char>)>,
    e: (PathView, Seq<char>),
    sep: Seq<char>,
) -> Seq<char> {
    if group_size(entries, e.0) > 10 {
        repomix_integration::pattern_start(e.0, sep) + "**"@
    } else {
        repomix_integration::pattern_start(e.0, sep) + e.1
    }
}

proof fn lemma_group_in_rest(entries: Seq<(PathView, Seq<char>)>, place: PathView)
    requires
        entries.len() > 0,
        place != entries[0].0,
    ensures
        group_size(
            entries.drop_first().filter(repomix_integration::not_in_directory(entries[0].0)),
            place,
        ) == group_size(entries, place),
{
    let here = repomix_integration::in_directory(place);
    let other = repomix_integration::not_in_directory(entries[0].0);
    assert forall|e: (PathView, Seq<char>)| #[trigger] here(e) implies other(e) by {}
    lists::lemma_filter_twice(entries.drop_first(), other, here);
    lists::lemma_filter_tail(entries, here);
}

proof fn lemma_grouped(entries: Seq<(PathView, Seq<char>)>, sep: Seq<char>, x: Seq<char>)
    ensures
        repomix_integration::grouped_patterns(entries, sep).contains(x) <==> exists|
            e: (PathView, Seq<char>),
        | #[trigger] entries.contains(e) && x == entry_pattern(entries, e, sep),
    decreases entries.len(),
{
    if entries.len() == 0 {
        assert(repomix_integration::grouped_patterns(entries, sep) =~= Seq::empty());
    } else {
        let dir = entries[0].0;
        let here = repomix_integration::in_directory(dir);
        let other = repomix_integration::not_in_directory(dir);
        let group = entries.filter(here);
        let names = group.map_values(repomix_integration::entry_name());
        let first = repomix_integration::directory_patterns(dir, names, sep);
        let tail = entries.drop_first();
        let rest_entries = tail.filter(other);
        let rest = repomix_integration::grouped_patterns(rest_entries, sep);
        let all = repomix_integration::grouped_patterns(entries, sep);
        tail.lemma_filter_len(other);
        assert(all == first + rest);
        lists::lemma_filter_members(entries, here);
        lists::lemma_filter_members(tail, other);
        lemma_grouped(rest_entries, sep, x);
        if all.contains(x) {
            let k = all.index_of(x);
            if k < first.len() {
                assert(first[k] == x);
                if names.len() > 10 {
                    assert(entries.contains(entries[0]));
                    assert(x == entry_pattern(entries, entries[0], sep));
                } else {
                    assert(group.contains(group[k]));
                    assert(names[k] == group[k].1);
                    assert(entries.contains(group[k]));
                    assert(x == entry_pattern(entries, group[k], sep));
                }
            } else {
                assert(rest[k - first.len()] == x);
                assert(rest.contains(x));
                let e = choose|e: (PathView, Seq<char>)| #[trigger]
                    rest_entries.contains(e) && x == entry_pattern(rest_entries, e, sep);
                assert(tail.contains(e));
                assert(entries[tail.index_of(e) + 1] == e);
                assert(entries.contains(e));
                lemma_group_in_rest(entries, e.0);
                assert(x == entry_pattern(entries, e, sep));
            }
        }
        if exists|e: (PathView, Seq<char>)| #[trigger]
            entries.contains(e) && x == entry_pattern(entries, e, sep) {
            let e = choose|e: (PathView, Seq<char>)| #[trigger]
                entries.contains(e) && x == entry_pattern(entries, e, sep);
            if e.0 == dir {
                assert(group.contains(e));
                let k = group.index_of(e);
                assert(names[k] == e.1);
                if names.len() > 10 {
                    assert(first[0] == x);
                    assert(all[0] == x);
                } else {
                    assert(first[k] == x);
                    assert(all[k] == x);
                }
            } else {
                let i = entries.index_of(e);
                assert(tail[i - 1] == e);
                assert(tail.contains(e));
                assert(rest_entries.contains(e));
                lemma_group_in_rest(entries, e.0);
                assert(x == entry_pattern(rest_entries, e, sep));
                assert(rest.contains(x));
                assert(all[first.len() + rest.index_of(x)] == x);
            }
        }
    }
}

/// The directory patterns are those that the files fall under: each file that has a place in them
/// falls under one of them, and each of them stands for such a file.
pub proof fn lemma_patterns_stand_for_files(
    files: Seq<PathView>,
    dir: PathView,
    sep: Seq<char>,
    x: Seq<char>,
)
    ensures
        repomix_integration::patterns(files, dir, sep).contains(x) <==> exists|i: int|
            0 <= i < files.len() && pattern_place(#[trigger] files[i], dir, sep) is Some && x
                == pattern_for(files, files[i], dir, sep),
{
    reveal_strlit("**");
    reveal_strlit("/");
    assert("**"@ =~= seq!['*', '*']);
    assert("/"@ =~= seq!['/']);
    let pick = |f: PathView| repomix_integration::pattern_entry(f, dir, sep);
    let entries = files.filter_map(pick);
    let places = lists::lemma_filter_map_places(files, pick);
    lemma_grouped(entries, sep, x);
    assert forall|f: PathView| #[trigger] pick(f) == pattern_place(f, dir, sep) by {
        lemma_pattern_place(f, dir, sep);
    }
    assert forall|k: int, i: int|
        0 <= k < entries.len() && 0 <= i < files.len() && pick(#[trigger] files[i]) == Some(
            #[trigger] entries[k],
        ) implies entry_pattern(entries, entries[k], sep) == pattern_for(
        files,
        files[i],
        dir,
        sep,
    ) by {
        let place = entries[k].0;
        let there = is_placed_in(dir, sep, place);
        assert forall|f: PathView| #[trigger] there(f) <==> (pick(f) is Some
            && repomix_integration::in_directory(place)(pick(f)->0)) by {}
        lists::lemma_filter_map_count(
            files,
            pick,
            repomix_integration::in_directory(place),
            there,
        );
        assert(pattern_place(files[i], dir, sep) == Some(entries[k]));
    }
    if repomix_integration::patterns(files, dir, sep).contains(x) {
        let e = choose|e: (PathView, Seq<char>)| #[trigger]
            entries.contains(e) && x == entry_pattern(entries, e, sep);
        let k = entries.index_of(e);
        let i = places[k];
        assert(pick(files[i]) == Some(entries[k]));
        assert(pattern_place(files[i], dir, sep) is Some);
    }
    if exists|i: int|
        0 <= i < files.len() && pattern_place(#[trigger] files[i], dir, sep) is Some && x
            == pattern_for(files, files[i], dir, sep) {
        let i = choose|i: int|
            0 <= i < files.len() && pattern_place(#[trigger] files[i], dir, sep) is Some && x
                == pattern_for(files, files[i], dir, sep);
        assert(pick(files[i]) is Some);
        let k = places.index_of(i);
        assert(pick(files[places[k]]) == Some(entries[k]));
        assert(entries.contains(entries[k]));
    }
}

/// Where the patterns of a list of entries come from: the result gives, for each pattern, the place
/// of an entry that it stands for.
#[verifier::spinoff_prover]
#[verifier::rlimit(60)]
proof fn lemma_grouped_places(entries: Seq<(PathView, Seq<char>)>, sep: Seq<char>) -> (at: Seq<int>)
    ensures
        ({
            let all = repomix_integration::grouped_patterns(entries, sep);
            &&& at.len() == all.len()
            &&& forall|k: int|
                0 <= k < at.len() ==> 0 <= #[trigger] at[k] < entries.len() && all[k]
                    == entry_pattern(entries, entries[at[k]], sep)
            &&& forall|j: int, k: int|
                0 <= j < k < at.len() ==> #[trigger] at[j] != #[trigger] at[k] && (
                entries[at[j]].0 == entries[at[k]].0 ==> group_size(entries, entries[at[j]].0)
                    <= 10)
            &&& forall|i: int|
                0 <= i < entries.len() && group_size(entries, (#[trigger] entries[i]).0) <= 10
                    ==> at.contains(i)
        }),
    decreases entries.len(),
{
    if entries.len() == 0 {
        assert(repomix_integration::grouped_patterns(entries, sep) =~= Seq::empty());
        Seq::empty()
    } else {
        let dir = entries[0].0;
        let here = repomix_integration::in_directory(dir);
        let other = repomix_integration::not_in_directory(dir);
        let group = entries.filter(here);
        let names = group.map_values(repomix_integration::entry_name());
        let first = repomix_integration::directory_patterns(dir, names, sep);
        let tail = entries.drop_first();
        let rest_entries = tail.filter(other);
        let rest = repomix_integration::grouped_patterns(rest_entries, sep);
        let all = repomix_integration::grouped_patterns(entries, sep);
        tail.lemma_filter_len(other);
        assert(all == first + rest);
        let own = lists::lemma_filter_places(entries, here);
        let others = lists::lemma_filter_places(tail, other);
        let deep = lemma_grouped_places(rest_entries, sep);
        let near = if names.len() > 10 {
            seq![0int]
        } else {
            own
        };
        let far = Seq::new(deep.len(), |k: int| others[deep[k]] + 1);
        let at = near + far;
        assert forall|k: int| 0 <= k < near.len() implies 0 <= #[trigger] near[k] < entries.len()
            && entries[near[k]].0 == dir && first[k] == entry_pattern(
            entries,
            entries[near[k]],
            sep,
        ) by {
            if names.len() <= 10 {
                assert(here(entries[own[k]]));
                assert(group[k] == entries[own[k]]);
                assert(names[k] == group[k].1);
            }
        }
        assert forall|k: int| 0 <= k < far.len() implies 0 <= #[trigger] far[k] < entries.len()
            && entries[far[k]] == rest_entries[deep[k]] && entries[far[k]].0 != dir && rest[k]
            == entry_pattern(entries, entries[far[k]], sep) && group_size(
            entries,
            entries[far[k]].0,
        ) == group_size(rest_entries, rest_entries[deep[k]].0) by {
            let o = others[deep[k]];
            assert(tail[o] == rest_entries[deep[k]]);
            assert(other(tail[o]));
            assert(entries[o + 1] == tail[o]);
            lemma_group_in_rest(entries, entries[far[k]].0);
        }
        assert(near.len() == first.len());
        assert forall|k: int| 0 <= k < at.len() implies 0 <= #[trigger] at[k] < entries.len()
            && all[k] == entry_pattern(entries, entries[at[k]], sep) by {
            if k < near.len() {
                assert(at[k] == near[k] && all[k] == first[k]);
            } else {
                assert(at[k] == far[k - near.len()] && all[k] == rest[k - near.len()]);
            }
        }
        assert forall|j: int, k: int| 0 <= j < k < at.len() implies #[trigger] at[j]
            != #[trigger] at[k] && (entries[at[j]].0 == entries[at[k]].0 ==> group_size(
            entries,
            entries[at[j]].0,
        ) <= 10) by {
            if k < near.len() {
                assert(at[j] == near[j] && at[k] == near[k]);
                assert(own[j] < own[k]);
            } else if j < near.len() {
                assert(at[j] == near[j] && at[k] == far[k - near.len()]);
            } else {
                let x = j - near.len();
                let y = k - near.len();
                assert(at[j] == far[x] && at[k] == far[y]);
                assert(deep[x] != deep[y]);
                if deep[x] < deep[y] {
                    assert(others[deep[x]] < others[deep[y]]);
                } else {
                    assert(others[deep[y]] < others[deep[x]]);
                }
            }
        }
        assert forall|i: int|
            0 <= i < entries.len() && group_size(
                entries,
                (#[trigger] entries[i]).0,
            ) <= 10 implies at.contains(i) by {
            if entries[i].0 == dir {
                assert(here(entries[i]));
                assert(own.contains(i));
                assert(at[own.index_of(i)] == i);
            } else {
                assert(tail[i - 1] == entries[i]);
                assert(other(tail[i - 1]));
                assert(others.contains(i - 1));
                let m = others.index_of(i - 1);
                assert(rest_entries[m] == tail[i - 1]);
                lemma_group_in_rest(entries, entries[i].0);
                assert(deep.contains(m));
                let k = deep.index_of(m);
                assert(far[k] == i);
                assert(at[near.len() + k] == i);
            }
        }
        at
    }
}

/// No pattern is listed more often than it has to be: each stands for a file of its own; a directory
/// with more than ten files has no second one, and in any other each file has its own. The result gives, for
/// each pattern, the place of a file that it stands for.
#[verifier::spinoff_prover]
#[verifier::rlimit(60)]
pub proof fn lemma_each_pattern_once(files: Seq<PathView>, dir: PathView, sep: Seq<char>) -> (places:
    Seq<int>)
    ensures
        ({
            let all = repomix_integration::patterns(files, dir, sep);
            let entry = |i: int| repomix_integration::pattern_entry(files[i], dir, sep);
            let fellows = |i: int|
                files.filter(is_placed_in(dir, sep, (entry(i)->0).0)).len();
            &&& places.len() == all.len()
            &&& forall|k: int|
                0 <= k < places.len() ==> 0 <= #[trigger] places[k] < files.len() && entry(
                    places[k],
                ) is Some && all[k] == pattern_for(files, files[places[k]], dir, sep)
            &&& forall|j: int, k: int|
                0 <= j < k < places.len() ==> #[trigger] places[j] != #[trigger] places[k] && ((
                entry(places[j])->0).0 == (entry(places[k])->0).0 ==> fellows(places[j]) <= 10)
            &&& forall|i: int|
                #![trigger files[i]]
                0 <= i < files.len() && entry(i) is Some && fellows(i) <= 10 ==> places.contains(i)
        }),
{
    reveal_strlit("**");
    reveal_strlit("/");
    assert("**"@ =~= seq!['*', '*']);
    assert("/"@ =~= seq!['/']);
    let pick = |f: PathView| repomix_integration::pattern_entry(f, dir, sep);
    let entries = files.filter_map(pick);
    let from = lists::lemma_filter_map_places(files, pick);
    let at = lemma_grouped_places(entries, sep);
    let places = Seq::new(at.len(), |k: int| from[at[k]]);
    let all = repomix_integration::patterns(files, dir, sep);
    let entry = |i: int| repomix_integration::pattern_entry(files[i], dir, sep);
    let fellows = |i: int| files.filter(is_placed_in(dir, sep, (entry(i)->0).0)).len();
    assert forall|f: PathView| #[trigger] pick(f) == pattern_place(f, dir, sep) by {
        lemma_pattern_place(f, dir, sep);
    }
    assert forall|m: int| 0 <= m < entries.len() implies 0 <= #[trigger] from[m] < files.len()
        && entry(from[m]) == Some(entries[m]) && group_size(entries, entries[m].0) == fellows(
        from[m],
    ) && entry_pattern(entries, entries[m], sep) == pattern_for(files, files[from[m]], dir, sep) by {
        assert(pick(files[from[m]]) == Some(entries[m]));
        let place = entries[m].0;
        let there = is_placed_in(dir, sep, place);
        assert forall|f: PathView| #[trigger] there(f) <==> (pick(f) is Some
            && repomix_integration::in_directory(place)(pick(f)->0)) by {}
        lists::lemma_filter_map_count(
            files,
            pick,
            repomix_integration::in_directory(place),
            there,
        );
        assert(pattern_place(files[from[m]], dir, sep) == Some(entries[m]));
    }
    assert forall|k: int| 0 <= k < places.len() implies 0 <= #[trigger] places[k] < files.len()
        && entry(places[k]) is Some && all[k] == pattern_for(files, files[places[k]], dir, sep) by {
        assert(entry(from[at[k]]) == Some(entries[at[k]]));
    }
    assert forall|j: int, k: int| 0 <= j < k < places.len() implies #[trigger] places[j]
        != #[trigger] places[k] && ((entry(places[j])->0).0 == (entry(places[k])->0).0 ==> fellows(
        places[j],
    ) <= 10) by {
        assert(at[j] != at[k]);
        assert(entry(from[at[j]]) == Some(entries[at[j]]));
        assert(entry(from[at[k]]) == Some(entries[at[k]]));
        if at[j] < at[k] {
            assert(from[at[j]] < from[at[k]]);
        } else {
            assert(from[at[k]] < from[at[j]]);
        }
    }
    assert forall|i: int|
        #![trigger files[i]]
        0 <= i < files.len() && entry(i) is Some && fellows(i) <= 10 implies places.contains(i) by {
        assert(pick(files[i]) is Some);
        assert(from.contains(i));
        let m = from.index_of(i);
        assert(entry(from[m]) == Some(entries[m]));
        assert(group_size(entries, entries[m].0) <= 10);
        assert(at.contains(m));
        assert(places[at.index_of(m)] == i);
    }
    places
}

/// More than a thousand files are handed over by directory patterns, fewer one by one.
pub proof fn lemma_many_files_by_pattern(files: Seq<PathView>, dir: PathView, sep: Seq<char>)
    ensures
        files.len() > 1000 ==> repomix_integration::included(files, dir, sep)
            == repomix_integration::patterns(files, dir, sep),
{
}

/// The text of the output file ends in a letter that no option ends in.
proof fn lemma_output_text(dir: PathView, process_id: u32, sep: Seq<char>)
    ensures
        ({
            let s = path::path_text(repomix_integration::output_path(dir, process_id), sep);
            &&& s.len() > 0
            &&& s.last() == 'd'
        }),
{
    reveal_strlit(".md");
    let name = "siff-repomix-"@ + text::decimal(process_id as nat) + ".md"@;
    let p = repomix_integration::output_path(dir, process_id);
    assert(name.last() == 'd');
    assert(p.last() == ComponentView::Normal(name));
    assert(path::path_text(p, sep).last() == name.last());
}

/// The command line says what the options say: it asks to compress, and to remove comments, exactly
/// where they do, it names the format that they name, and it names the output file, the files to
/// pack and the current directory.
pub proof fn lemma_options_reach_command_line(
    files: Seq<PathView>,
    options: RepomixOptions,
    dir: PathView,
    process_id: u32,
    sep: Seq<char>,
)
    ensures
        ({
            let args = repomix_integration::isolated_arguments(
                files,
                options,
                dir,
                process_id,
                sep,
            );
            let n = args.len() as int;
            &&& n == 9 + (if options.compress { 1int } else { 0 }) + (if options.remove_comments {
                1int
            } else {
                0
            })
            &&& options.compress <==> args.take(n - 3).contains("--compress"@)
            &&& options.remove_comments <==> args.take(n - 3).contains("--remove-comments"@)
            &&& options.output_format is PlainText <==> args.take(n - 3).contains("--style=plain"@)
            &&& options.output_format is Markdown <==> args.take(n - 3).contains("--style=markdown"@)
            &&& options.output_format is Xml <==> args.take(n - 3).contains("--style=xml"@)
            &&& args[0] == "--no-gitignore"@
            &&& args[1] == "--no-default-patterns"@
            &&& args[2] == "--no-directory-structure"@
            &&& args[3] == "--output"@
            &&& args[4] == path::path_text(
                dir.push(
                    ComponentView::Normal(
                        "siff-repomix-"@ + text::decimal(process_id as nat) + ".md"@,
                    ),
                ),
                sep,
            )
            &&& options.compress ==> args[5] == "--compress"@
            &&& options.remove_comments ==> args[n - 5] == "--remove-comments"@
            &&& args[n - 3] == "--include"@
            &&& args[n - 2] == text::joined(repomix_integration::included(files, dir, sep), ","@)
            &&& args[n - 1] == "."@
        }),
{
    let args = repomix_integration::isolated_arguments(files, options, dir, process_id, sep);
    let n = args.len() as int;
    reveal_strlit("--compress");
    reveal_strlit("--remove-comments");
    reveal_strlit("--style=plain");
    reveal_strlit("--style=markdown");
    reveal_strlit("--style=xml");
    reveal_strlit("--no-gitignore");
    reveal_strlit("--no-default-patterns");
    reveal_strlit("--no-directory-structure");
    reveal_strlit("--output");
    lemma_output_text(dir, process_id, sep);
    assert("--style=xml"@[8] == 'x');
    assert("--style=plain"@[8] == 'p');
    assert("--style=markdown"@[8] == 'm');
    assert("--style=xml"@.last() == 'l');
    assert("--style=plain"@.last() == 'n');
    assert("--style=markdown"@.last() == 'n');
    assert("--compress"@.last() == 's');
    assert("--remove-comments"@.last() == 's');
    assert("--style=plain"@.len() == 13 && "--style=markdown"@.len() == 16);
    assert("--no-gitignore"@[2] == 'n' && "--no-default-patterns"@[2] == 'n'
        && "--no-directory-structure"@[2] == 'n' && "--output"@[2] == 'o');
    assert("--style=xml"@[2] == 's' && "--style=plain"@[2] == 's' && "--style=markdown"@[2] == 's'
        && "--compress"@[2] == 'c' && "--remove-comments"@[2] == 'r');
    assert(args.take(n - 3)[n - 4] == options.output_format.flag());
    assert(options.compress ==> args.take(n - 3)[5] == "--compress"@);
    assert(options.remove_comments ==> args.take(n - 3)[n - 5] == "--remove-comments"@);
    if args.take(n - 3).contains("--compress"@) {
        let i = args.take(n - 3).index_of("--compress"@);
        assert(args[i] == "--compress"@);
        assert(i < 4 || i == 4 || i == n - 4 || (options.compress && i == 5) || (
        options.remove_comments && i == n - 5));
    }
    if args.take(n - 3).contains("--remove-comments"@) {
        let i = args.take(n - 3).index_of("--remove-comments"@);
        assert(args[i] == "--remove-comments"@);
        assert(i < 4 || i == 4 || i == n - 4 || (options.compress && i == 5) || (
        options.remove_comments && i == n - 5));
    }
    if args.take(n - 3).contains("--style=plain"@) {
        let i = args.take(n - 3).index_of("--style=plain"@);
        assert(args[i] == "--style=plain"@);
        assert(i < 4 || i == 4 || i == n - 4 || (options.compress && i == 5) || (
        options.remove_comments && i == n - 5));
    }
    if args.take(n - 3).contains("--style=markdown"@) {
        let i = args.take(n - 3).index_of("--style=markdown"@);
        assert(args[i] == "--style=markdown"@);
        assert(i < 4 || i == 4 || i == n - 4 || (options.compress && i == 5) || (
        options.remove_comments && i == n - 5));
    }
    if args.take(n - 3).contains("--style=xml"@) {
        let i = args.take(n - 3).index_of("--style=xml"@);
        assert(args[i] == "--style=xml"@);
        assert(i < 4 || i == 4 || i == n - 4 || (options.compress && i == 5) || (
        options.remove_comments && i == n - 5));
    }
}

/// The command line depends on the options through three of them only: whether to compress, whether
/// to remove comments, and the format.
pub proof fn lemma_other_options_stay_off_command_line(
    files: Seq<PathView>,
    one: RepomixOptions,
    other: RepomixOptions,
    dir: PathView,
    process_id: u32,
    sep: Seq<char>,
)
    requires
        one.compress == other.compress,
        one.remove_comments == other.remove_comments,
        one.output_format == other.output_format,
    ensures
        repomix_integration::isolated_arguments(files, one, dir, process_id, sep)
            == repomix_integration::isolated_arguments(files, other, dir, process_id, sep),
{
}

/// What stands before the directory structure.
pub open spec fn opening(format: OutputFormat) -> Seq<char> {
    match format {
        OutputFormat::Xml => "<directory_structure>\n"@,
        OutputFormat::Markdown => "## Directory Structure\n\n```\n"@,
        OutputFormat::PlainText => "Directory Structure:\n"@,
    }
}

/// What stands between the directory structure and the packed files.
pub open spec fn closing(format: OutputFormat) -> Seq<char> {
    match format {
        OutputFormat::Xml => "</directory_structure>\n\n"@,
        OutputFormat::Markdown => "\n```\n\n"@,
        OutputFormat::PlainText => "\n"@,
    }
}

/// The text for the clipboard is what repomix wrote, whole and at the end, with the directory
/// structure before it exactly where the file tree option asks for it, whatever the other options
/// are.
pub proof fn lemma_clipboard_has_output(
    content: Seq<char>,
    options: RepomixOptions,
    t: TreeView,
    root: PathView,
    size: nat,
)
    ensures
        ({
            let shown = repomix_integration::clipboard_text(content, options, t, root, size);
            let tree = file_utils::tree_text(t, root, size);
            &&& content.is_suffix_of(shown)
            &&& !options.file_tree ==> shown == content
            &&& options.file_tree ==> shown == opening(options.output_format) + tree + closing(
                options.output_format,
            ) + content
            &&& options.file_tree ==> shown.len() > content.len()
        }),
{
    reveal_strlit("<directory_structure>\n");
    reveal_strlit("## Directory Structure\n\n```\n");
    reveal_strlit("Directory Structure:\n");
    let shown = repomix_integration::clipboard_text(content, options, t, root, size);
    assert(shown.subrange(shown.len() - content.len(), shown.len() as int) =~= content);
}

/// The text for the clipboard depends on the options through two of them only: whether the file
/// tree is asked for, and the format; and what repomix wrote makes no difference to what stands
/// before it.
pub proof fn lemma_clipboard_ignores_other_options(
    content: Seq<char>,
    later: Seq<char>,
    one: RepomixOptions,
    other: RepomixOptions,
    t: TreeView,
    root: PathView,
    size: nat,
)
    requires
        one.file_tree == other.file_tree,
        one.output_format == other.output_format,
    ensures
        ({
            let a = repomix_integration::clipboard_text(content, one, t, root, size);
            let b = repomix_integration::clipboard_text(content, other, t, root, size);
            let c = repomix_integration::clipboard_text(later, other, t, root, size);
            &&& a == b
            &&& a.take(a.len() - content.len()) == c.take(c.len() - later.len())
        }),
{
    let a = repomix_integration::clipboard_text(content, one, t, root, size);
    let c = repomix_integration::clipboard_text(later, other, t, root, size);
    assert(a.take(a.len() - content.len()) =~= c.take(c.len() - later.len()));
}

/// Repomix runs in an environment of eight variables: the four places where it would look for a
/// configuration all lead to an empty home of its own, and the others are fixed.
pub proof fn lemma_environment_is_isolated(temp_dir: PathView, platform: Platform)
    ensures
        ({
            let env = repomix_integration::environment(temp_dir, platform);
            let home = path::path_text(
                temp_dir.push(ComponentView::Normal("siff-fake-home"@)),
                if platform is Windows {
                    "\\"@
                } else {
                    "/"@
                },
            );
            &&& env.len() == 8
            &&& env.contains(("HOME"@, home))
            &&& env.contains(("USERPROFILE"@, home))
            &&& env.contains(("XDG_CONFIG_HOME"@, home))
            &&& env.contains(("APPDATA"@, home))
            &&& env.contains(("NODE_ENV"@, "production"@))
            &&& env.contains(("NO_UPDATE_NOTIFIER"@, "1"@))
            &&& env.contains(("NO_COLOR"@, "1"@))
            &&& env.contains(
                (
                    "PATH"@,
                    if platform is Windows {
                        "C:\\Program Files\\nodejs;C:\\Program Files (x86)\\nodejs;C:\\Windows\\System32"@
                    } else {
                        "/usr/local/bin:/usr/bin:/bin:/opt/homebrew/bin"@
                    },
                ),
            )
        }),
{
    let env = repomix_integration::environment(temp_dir, platform);
    assert(env[0] == ("NODE_ENV"@, "production"@));
    assert(env[1] == ("NO_UPDATE_NOTIFIER"@, "1"@));
    assert(env[2] == ("NO_COLOR"@, "1"@));
    assert(env[3].0 == "HOME"@ && env[4].0 == "USERPROFILE"@);
    assert(env[5].0 == "XDG_CONFIG_HOME"@ && env[6].0 == "APPDATA"@);
    assert(env[7].0 == "PATH"@);
}

/// A run gets under way exactly where there are files, repomix is ready and its entry point there,
/// and something is left to pack. It then runs that entry point, with the command line and the
/// environment for these files and options, and the file that is read afterwards is the one that
/// the command line names. The manager stays as it is.
pub proof fn lemma_run_is_prepared(
    v: RepomixView,
    files: Seq<PathView>,
    options: RepomixOptions,
    dir: PathView,
    temp_dir: PathView,
    process_id: u32,
    entry_exists: bool,
    platform: Platform,
)
    ensures
        ({
            let sep = if platform is Windows {
                "\\"@
            } else {
                "/"@
            };
            let (w, r) = repomix_integration::prepared(
                v,
                files,
                options,
                dir,
                temp_dir,
                process_id,
                entry_exists,
                platform,
            );
            let ready = files.len() > 0 && v.status is Ready && entry_exists;
            &&& (r matches Ok(PreparedView::Command { .. })) <==> ready
                && repomix_integration::included(files, dir, sep).len() > 0
            &&& r matches Ok(PreparedView::Command { entry, args, environment, output_file }) ==> {
                &&& entry == v.entry
                &&& args == repomix_integration::isolated_arguments(
                    files,
                    options,
                    dir,
                    process_id,
                    sep,
                )
                &&& args[4] == path::path_text(output_file, sep)
                &&& environment == repomix_integration::environment(temp_dir, platform)
            }
            &&& (r matches Ok(PreparedView::Download)) <==> files.len() > 0 && v.status
                is NotStarted
            &&& files.len() == 0 ==> w == v && r == Err::<PreparedView, Seq<char>>(
                "No files selected for processing"@,
            )
            &&& ready ==> w == v
            &&& ready && repomix_integration::included(files, dir, sep).len() == 0 ==> r == Err::<
                PreparedView,
                Seq<char>,
            >(
                if files.len() > 1000 {
                    "Error: No valid directory patterns could be created"@
                } else {
                    "Error: No valid files to process after security validation"@
                },
            )
            &&& files.len() > 0 ==> w == repomix_integration::ensured(v, entry_exists).0
            &&& files.len() > 0 && repomix_integration::ensured(v, entry_exists).1 is Err ==> r
                == Err::<PreparedView, Seq<char>>(
                repomix_integration::ensured(v, entry_exists).1->Err_0,
            )
        }),
{
}

/// A run that leaves files out says so. Among more than a thousand files these are all that lie
/// outside of the working directory or have a place there that is not harmless; among fewer they
/// are those whose place is harmless but holds a comma. Each warning ends with the path of its
/// file, and they stand in the order of the files. The result gives the place of each in the list.
pub proof fn lemma_left_out_files_are_named(files: Seq<PathView>, dir: PathView, sep: Seq<char>) -> (
places: Seq<int>)
    ensures
        ({
            let warnings = repomix_integration::argument_warnings(files, dir, sep);
            let many = files.len() > 1000;
            &&& places.len() == warnings.len()
            &&& forall|k: int|
                0 <= k < places.len() ==> {
                    let f = files[#[trigger] places[k]];
                    let place = path::path_text(f.skip(dir.len() as int), sep);
                    &&& 0 <= places[k] < files.len()
                    &&& warnings[k] == (if !dir.is_prefix_of(f) {
                        "Warning: Skipping file outside working directory: "@ + path::path_text(
                            f,
                            sep,
                        )
                    } else if many {
                        "Warning: Skipping invalid file path: "@ + place
                    } else {
                        "Warning: Skipping file with comma in filename (security): "@ + place
                    })
                }
            &&& forall|j: int, k: int|
                0 <= j < k < places.len() ==> #[trigger] places[j] < #[trigger] places[k]
            &&& forall|i: int|
                0 <= i < files.len() ==> (places.contains(i) <==> if many {
                    texts::file_argument(#[trigger] files[i], dir, sep) is None
                } else {
                    texts::file_argument(files[i], dir, sep) is Some && listed_name(
                        files[i],
                        dir,
                        sep,
                    ) is None
                })
        }),
{
    let many = files.len() > 1000;
    let warnings = repomix_integration::argument_warnings(files, dir, sep);
    let pick = |f: PathView| repomix_integration::file_warning(f, dir, sep, files.len() > 1000);
    let places = lists::lemma_filter_map_places(files, pick);
    assert(warnings == files.filter_map(pick));
    assert forall|i: int| 0 <= i < files.len() implies (pick(#[trigger] files[i]) is Some <==> (
    if many {
        texts::file_argument(files[i], dir, sep) is None
    } else {
        texts::file_argument(files[i], dir, sep) is Some && listed_name(files[i], dir, sep) is None
    })) by {
        texts::lemma_valid_argument(files[i], dir, sep);
        lemma_listed_name(files[i], dir, sep);
        texts::lemma_safe_is_harmless(path::path_text(files[i].skip(dir.len() as int), sep));
    }
    assert forall|k: int| 0 <= k < places.len() implies {
        let f = files[#[trigger] places[k]];
        let place = path::path_text(f.skip(dir.len() as int), sep);
        &&& 0 <= places[k] < files.len()
        &&& warnings[k] == (if !dir.is_prefix_of(f) {
            "Warning: Skipping file outside working directory: "@ + path::path_text(f, sep)
        } else if many {
            "Warning: Skipping invalid file path: "@ + place
        } else {
            "Warning: Skipping file with comma in filename (security): "@ + place
        })
    } by {
        let f = files[places[k]];
        assert(pick(f) == Some(warnings[k]));
    }
    assert forall|i: int| 0 <= i < files.len() && places.contains(i) implies pick(
        #[trigger] files[i],
    ) is Some by {
        let k = places.index_of(i);
        assert(pick(files[places[k]]) == Some(warnings[k]));
    }
    places
}

/// The error of a failed run holds all that the run wrote: its error output, its output, both with
/// their names where there are both, and a remark where there is nothing.
pub proof fn lemma_run_error_keeps_output(stdout: Seq<char>, stderr: Seq<char>)
    ensures
        ({
            let e = repomix_integration::run_error(stdout, stderr);
            &&& stdout.len() > 0 ==> stdout.is_suffix_of(e) || stderr.len() == 0
            &&& stderr.len() == 0 && stdout.len() > 0 ==> e == stdout
            &&& stdout.len() == 0 && stderr.len() > 0 ==> e == stderr
            &&& stdout.len() > 0 && stderr.len() > 0 ==> e == "stderr: "@ + stderr + " | stdout: "@
                + stdout
            &&& stdout.len() == 0 && stderr.len() == 0 ==> e
                == "Command failed with no error output"@
        }),
{
    let e = repomix_integration::run_error(stdout, stderr);
    if stdout.len() > 0 && stderr.len() > 0 {
        assert(e.subrange(e.len() - stdout.len(), e.len() as int) =~= stdout);
    }
}

/// A process that a signal ended has the exit code -1, and any other has its own.
pub proof fn lemma_exit_code(code: i32)
    ensures
        process::exit_code(Some(code)) == code,
        process::exit_code(None) == -1,
{
}

/// The message of a run begins with the number of files that were selected.
pub proof fn lemma_success_names_number(n: nat)
    ensures
        process::success_message(n) == text::decimal(n)
            + " files processed and copied to clipboard"@,
        text::decimal(n).is_prefix_of(process::success_message(n)),
{
    assert(process::success_message(n).subrange(0, text::decimal(n).len() as int)
        =~= text::decimal(n));
}

/// A selection draws one warning where it is empty or large, and none otherwise; for repomix large
/// is more than a hundred files, for yek more than a thousand.
pub proof fn lemma_selection_warnings(n: nat)
    ensures
        ({
            let r = repomix_integration::selection_warnings(n);
            let y = yek_integration::selection_warnings(n);
            &&& r.len() == (if n == 0 || n > 100 { 1nat } else { 0 })
            &&& y.len() == (if n == 0 || n > 1000 { 1nat } else { 0 })
            &&& n == 0 ==> r[0] == "No files selected for processing"@ && y[0]
                == "No files selected"@
            &&& n > 100 ==> r[0] == "Large number of files selected ("@ + text::decimal(n)
                + "). May take a moment to process."@
            &&& n > 1000 ==> y[0]
                == "Large number of files selected, May take a moment to process"@
        }),
{
}

/// Yek warns of a long run where it gets more than a thousand arguments, with their number, and of
/// nothing else.
pub proof fn lemma_yek_warns_of_many(files: Seq<PathView>, dir: PathView, sep: Seq<char>)
    ensures
        ({
            let n = yek_integration::yek_arguments(files, dir, sep).len();
            let w = yek_integration::run_warnings(files, dir, sep);
            &&& w.len() == (if files.len() <= 10000 && n > 1000 { 1nat } else { 0 })
            &&& w.len() == 1 ==> w[0] == "Warning: Large file count ("@ + text::decimal(n)
                + "), processing may take some time"@
        }),
{
}

/// Node is looked for in the usual places of each system, and nowhere else.
pub proof fn lemma_node_is_found(platform: Platform)
    ensures
        repomix_integration::node_path(platform) == (if platform is Windows {
            "C:\\Program Files\\nodejs;C:\\Program Files (x86)\\nodejs;C:\\Windows\\System32"@
        } else {
            "/usr/local/bin:/usr/bin:/bin:/opt/homebrew/bin"@
        }),
{
}

/// The output file lies in the working directory and is named after the process: different
/// processes have different files.
pub proof fn lemma_output_file_of_process(dir: PathView, one: u32, other: u32)
    ensures
        repomix_integration::output_path(dir, one) == dir.push(
            ComponentView::Normal("siff-repomix-"@ + text::decimal(one as nat) + ".md"@),
        ),
        one != other ==> repomix_integration::output_path(dir, one)
            != repomix_integration::output_path(dir, other),
{
    if one != other {
        let a = repomix_integration::output_path(dir, one);
        let b = repomix_integration::output_path(dir, other);
        let x = "siff-repomix-"@ + text::decimal(one as nat) + ".md"@;
        let y = "siff-repomix-"@ + text::decimal(other as nat) + ".md"@;
        texts::lemma_decimal_stands_for_number(one as nat);
        texts::lemma_decimal_stands_for_number(other as nat);
        let n = "siff-repomix-"@.len() as int;
        if x == y {
            assert(text::decimal(one as nat) =~= x.subrange(n, x.len() - ".md"@.len()));
            assert(text::decimal(other as nat) =~= y.subrange(n, y.len() - ".md"@.len()));
        }
        assert(a.last() == ComponentView::Normal(x));
        assert(b.last() == ComponentView::Normal(y));
    }
}

} // verus!
