//! Maps and sets keyed by paths. Both keep their keys in the order of insertion.

use vstd::prelude::*;

use crate::path::{FilePath, PathView};
use crate::types;
use crate::types::{FileNode, NodeView};

verus! {

/// A map from paths to values.
#[derive(Debug)]
pub struct PathMap<T> {
    entries: Vec<(FilePath, T)>,
}

impl<T: View> View for PathMap<T> {
    type V = Map<PathView, T::V>;

    closed spec fn view(&self) -> Map<PathView, T::V> {
        Map::new(
            |k: PathView| self.keys().contains(k),
            |k: PathView| self.entries@[self.keys().index_of(k)].1@,
        )
    }
}

impl<T: View> PathMap<T> {
    /// The keys, in the order of insertion.
    pub closed spec fn keys(&self) -> Seq<PathView> {
        Seq::new(self.entries@.len(), |i: int| self.entries@[i].0@)
    }

    /// No key stands twice.
    pub open spec fn wf(&self) -> bool {
        self.keys().no_duplicates()
    }

    /// The map holds exactly its keys, finitely many.
    pub proof fn lemma_keys(&self)
        ensures
            forall|k: PathView| #[trigger] self@.dom().contains(k) <==> self.keys().contains(k),
            self@.dom() == self.keys().to_set(),
            self@.dom().finite(),
    {
        assert(self@.dom() =~= self.keys().to_set());
        vstd::seq_lib::seq_to_set_is_finite(self.keys());
    }

    /// The key at each position is in the map.
    pub proof fn lemma_key_at(&self, i: int)
        requires
            0 <= i < self.keys().len(),
        ensures
            self@.dom().contains(self.keys()[i]),
    {
        assert(self.keys().contains(self.keys()[i]));
    }

    proof fn lemma_value_at(&self, i: int)
        requires
            self.wf(),
            0 <= i < self.entries@.len(),
        ensures
            self@.dom().contains(self.keys()[i]),
            self@[self.keys()[i]] == self.entries@[i].1@,
    {
        assert(self.keys().contains(self.keys()[i]));
        let j = self.keys().index_of(self.keys()[i]);
        assert(self.keys()[j] == self.keys()[i]);
    }

    /// The map without entries.
    pub fn new() -> (r: Self)
        ensures
            r.wf(),
            r@ == Map::<PathView, T::V>::empty(),
            r.keys() == Seq::<PathView>::empty(),
    {
        let r = PathMap { entries: Vec::new() };
        assert(r.keys() =~= Seq::<PathView>::empty());
        assert(r@ =~= Map::<PathView, T::V>::empty());
        r
    }

    /// The number of entries.
    pub fn len(&self) -> (r: usize)
        ensures
            r == self.keys().len(),
    {
        self.entries.len()
    }

    /// The key at position `i`.
    pub fn key_at(&self, i: usize) -> (r: &FilePath)
        requires
            i < self.keys().len(),
        ensures
            r@ == self.keys()[i as int],
    {
        &self.entries[i].0
    }

    /// The value at position `i`.
    pub fn value_at(&self, i: usize) -> (r: &T)
        requires
            self.wf(),
            i < self.keys().len(),
        ensures
            r@ == self@[self.keys()[i as int]],
    {
        proof {
            self.lemma_value_at(i as int);
        }
        &self.entries[i].1
    }

    /// The position of a key.
    pub fn position(&self, key: &FilePath) -> (r: Option<usize>)
        ensures
            match r {
                Some(i) => i < self.keys().len() && self.keys()[i as int] == key@
                    && self@.dom().contains(key@),
                None => !self@.dom().contains(key@),
            },
    {
        let mut i: usize = 0;
        while i < self.entries.len()
            invariant
                i <= self.entries@.len(),
                forall|k: int| 0 <= k < i ==> self.keys()[k] != key@,
            decreases self.entries.len() - i,
        {
            if self.entries[i].0.same(key) {
                assert(self.keys()[i as int] == key@);
                return Some(i);
            }
            i = i + 1;
        }
        None
    }

    /// The value under a key.
    pub fn get(&self, key: &FilePath) -> (r: Option<&T>)
        requires
            self.wf(),
        ensures
            match r {
                Some(v) => self@.dom().contains(key@) && v@ == self@[key@],
                None => !self@.dom().contains(key@),
            },
    {
        match self.position(key) {
            Some(i) => Some(self.value_at(i)),
            None => None,
        }
    }

    /// Whether the map holds the key.
    pub fn contains_key(&self, key: &FilePath) -> (r: bool)
        ensures
            r == self@.dom().contains(key@),
    {
        self.position(key).is_some()
    }

    /// Puts a value under the key at position `i`.
    pub fn set_at(&mut self, i: usize, value: T)
        requires
            old(self).wf(),
            i < old(self).keys().len(),
        ensures
            final(self).wf(),
            final(self).keys() == old(self).keys(),
            final(self)@ == old(self)@.insert(old(self).keys()[i as int], value@),
    {
        let ghost v = value@;
        self.entries[i].1 = value;
        proof {
            self.lemma_set(*old(self), i as int, v);
        }
    }

    proof fn lemma_set(&self, before: Self, i: int, v: T::V)
        requires
            before.wf(),
            0 <= i < before.entries@.len(),
            self.entries@.len() == before.entries@.len(),
            forall|j: int|
                0 <= j < before.entries@.len() ==> (#[trigger] self.entries@[j]).0@
                    == before.entries@[j].0@,
            forall|j: int|
                0 <= j < before.entries@.len() && j != i ==> (#[trigger] self.entries@[j]).1@
                    == before.entries@[j].1@,
            self.entries@[i].1@ == v,
        ensures
            self.wf(),
            self.keys() == before.keys(),
            self@ == before@.insert(before.keys()[i], v),
    {
        assert(self.keys() =~= before.keys());
        let k = before.keys()[i];
        assert forall|q: PathView| before.keys().contains(q) implies self@[q] == before@.insert(k, v)[q] by {
            let j = before.keys().index_of(q);
            assert(before.keys()[j] == q);
            self.lemma_value_at(j);
            before.lemma_value_at(j);
        }
        self.lemma_value_at(i);
        assert(self@ =~= before@.insert(k, v));
    }

    /// Puts a value under a key, which joins the end of the order where it is new.
    pub fn insert(&mut self, key: FilePath, value: T)
        requires
            old(self).wf(),
        ensures
            final(self).wf(),
            final(self)@ == old(self)@.insert(key@, value@),
            final(self).keys() == (if old(self)@.dom().contains(key@) {
                old(self).keys()
            } else {
                old(self).keys().push(key@)
            }),
    {
        match self.position(&key) {
            Some(i) => {
                self.set_at(i, value);
            },
            None => {
                let ghost k = key@;
                let ghost v = value@;
                self.entries.push((key, value));
                proof {
                    old(self).lemma_keys();
                    assert(self.keys() =~= old(self).keys().push(k));
                    assert(!old(self).keys().contains(k));
                    assert(self.wf());
                    assert forall|q: PathView| self.keys().contains(q) implies self@[q]
                        == old(self)@.insert(k, v)[q] by {
                        let j = self.keys().index_of(q);
                        assert(self.keys()[j] == q);
                        self.lemma_value_at(j);
                        if j < old(self).entries@.len() {
                            old(self).lemma_value_at(j);
                            assert(old(self).keys()[j] == q);
                            assert(q != k);
                        }
                    }
                    assert forall|q: PathView| self.keys().contains(q) <==> (old(
                        self,
                    ).keys().contains(q) || q == k) by {
                        if old(self).keys().contains(q) {
                            let j = old(self).keys().index_of(q);
                            assert(self.keys()[j] == q);
                        }
                        assert(self.keys()[old(self).entries@.len() as int] == k);
                    }
                    assert(self@ =~= old(self)@.insert(k, v));
                }
            },
        }
    }

    /// Takes the entry at position `i` out.
    pub fn remove_at(&mut self, i: usize)
        requires
            old(self).wf(),
            i < old(self).keys().len(),
        ensures
            final(self).wf(),
            final(self)@ == old(self)@.remove(old(self).keys()[i as int]),
            final(self).keys() == old(self).keys().remove(i as int),
    {
        let _ = self.entries.remove(i);
        proof {
            let k = old(self).keys()[i as int];
            let n = old(self).entries@.len();
            assert(self.keys() =~= old(self).keys().remove(i as int));
            assert(self.wf());
            assert forall|q: PathView| self.keys().contains(q) implies q != k && old(
                self,
            ).keys().contains(q) && self@[q] == old(self)@[q] by {
                let j = self.keys().index_of(q);
                assert(self.keys()[j] == q);
                self.lemma_value_at(j);
                let o = if j < i { j } else { j + 1 };
                assert(old(self).keys()[o] == q);
                old(self).lemma_value_at(o);
            }
            assert forall|q: PathView| old(self).keys().contains(q) && q != k implies self.keys().contains(
                q,
            ) by {
                let o = old(self).keys().index_of(q);
                assert(old(self).keys()[o] == q);
                let j = if o < i { o } else { o - 1 };
                assert(self.keys()[j] == q);
            }
            assert(self@ =~= old(self)@.remove(k));
        }
    }

    /// Takes a key out, where it is in the map.
    pub fn remove(&mut self, key: &FilePath)
        requires
            old(self).wf(),
        ensures
            final(self).wf(),
            final(self)@ == old(self)@.remove(key@),
            final(self).keys() == (if old(self)@.dom().contains(key@) {
                old(self).keys().remove(old(self).keys().index_of(key@))
            } else {
                old(self).keys()
            }),
    {
        match self.position(key) {
            Some(i) => {
                self.remove_at(i);
            },
            None => {
                assert(self@ =~= old(self)@.remove(key@));
            },
        }
    }

    /// Takes every entry out.
    pub fn clear(&mut self)
        ensures
            final(self).wf(),
            final(self)@ == Map::<PathView, T::V>::empty(),
            final(self).keys() == Seq::<PathView>::empty(),
    {
        self.entries.clear();
        assert(self.keys() =~= Seq::<PathView>::empty());
        assert(self@ =~= Map::<PathView, T::V>::empty());
    }
}

impl PathMap<FileNode> {
    /// Selects or unselects the node at position `i`.
    pub fn set_selected_at(&mut self, i: usize, selected: bool)
        requires
            old(self).wf(),
            i < old(self).keys().len(),
        ensures
            final(self).wf(),
            final(self).keys() == old(self).keys(),
            final(self)@ == old(self)@.insert(
                old(self).keys()[i as int],
                (NodeView { is_selected: selected, ..old(self)@[old(self).keys()[i as int]] }),
            ),
    {
        proof {
            self.lemma_value_at(i as int);
        }
        self.entries[i].1.is_selected = selected;
        proof {
            self.lemma_set(
                *old(self),
                i as int,
                NodeView { is_selected: selected, ..old(self)@[old(self).keys()[i as int]] },
            );
        }
    }

    /// Expands or collapses the node at position `i`.
    pub fn set_expanded_at(&mut self, i: usize, expanded: bool)
        requires
            old(self).wf(),
            i < old(self).keys().len(),
        ensures
            final(self).wf(),
            final(self).keys() == old(self).keys(),
            final(self)@ == old(self)@.insert(
                old(self).keys()[i as int],
                (NodeView { is_expanded: expanded, ..old(self)@[old(self).keys()[i as int]] }),
            ),
    {
        proof {
            self.lemma_value_at(i as int);
        }
        self.entries[i].1.is_expanded = expanded;
        proof {
            self.lemma_set(
                *old(self),
                i as int,
                NodeView { is_expanded: expanded, ..old(self)@[old(self).keys()[i as int]] },
            );
        }
    }

    /// Toggles the expanded state of the node at position `i`, where it is a directory.
    pub fn toggle_expansion_at(&mut self, i: usize)
        requires
            old(self).wf(),
            i < old(self).keys().len(),
        ensures
            final(self).wf(),
            final(self).keys() == old(self).keys(),
            final(self)@ == old(self)@.insert(
                old(self).keys()[i as int],
                types::toggled(old(self)@[old(self).keys()[i as int]]),
            ),
    {
        proof {
            self.lemma_value_at(i as int);
        }
        self.entries[i].1.toggle_expansion();
        proof {
            self.lemma_set(
                *old(self),
                i as int,
                types::toggled(old(self)@[old(self).keys()[i as int]]),
            );
        }
    }

    /// Adds a child to the list of the node at position `i`.
    pub fn push_child_at(&mut self, i: usize, child: FilePath)
        requires
            old(self).wf(),
            i < old(self).keys().len(),
        ensures
            final(self).wf(),
            final(self).keys() == old(self).keys(),
            final(self)@ == old(self)@.insert(
                old(self).keys()[i as int],
                ({
                    let n = old(self)@[old(self).keys()[i as int]];
                    NodeView { children: n.children.push(child@), ..n }
                }),
            ),
    {
        proof {
            self.lemma_value_at(i as int);
        }
        let ghost c = child@;
        let ghost n = self@[self.keys()[i as int]];
        self.entries[i].1.children.push(child);
        proof {
            assert(self.entries@[i as int].1@.children =~= n.children.push(c));
            self.lemma_set(*old(self), i as int, NodeView { children: n.children.push(c), ..n });
        }
    }
}

/// A set of paths.
#[derive(Debug)]
pub struct PathSet {
    items: Vec<FilePath>,
}

impl View for PathSet {
    type V = Set<PathView>;

    open spec fn view(&self) -> Set<PathView> {
        self.order().to_set()
    }
}

impl PathSet {
    /// The members, in the order of insertion.
    pub closed spec fn order(&self) -> Seq<PathView> {
        crate::path::paths(self.items@)
    }

    /// No member stands twice.
    pub open spec fn wf(&self) -> bool {
        self.order().no_duplicates()
    }

    /// The set without members.
    pub fn new() -> (r: Self)
        ensures
            r.wf(),
            r@ == Set::<PathView>::empty(),
            r.order() == Seq::<PathView>::empty(),
    {
        let r = PathSet { items: Vec::new() };
        assert(r.order() =~= Seq::<PathView>::empty());
        assert(r@ =~= Set::<PathView>::empty());
        r
    }

    /// The number of members.
    pub fn len(&self) -> (r: usize)
        ensures
            r == self.order().len(),
            self.wf() ==> r == self@.len(),
    {
        proof {
            if self.wf() {
                self.order().unique_seq_to_set();
            }
        }
        self.items.len()
    }

    /// Whether the set has no members.
    pub fn is_empty(&self) -> (r: bool)
        ensures
            r == (self@ == Set::<PathView>::empty()),
    {
        proof {
            if self.items@.len() > 0 {
                assert(self.order().contains(self.order()[0]));
                assert(self@.contains(self.order()[0]));
            } else {
                assert(self@ =~= Set::<PathView>::empty());
            }
        }
        self.items.len() == 0
    }

    /// Whether the path is a member.
    pub fn contains(&self, path: &FilePath) -> (r: bool)
        ensures
            r == self@.contains(path@),
    {
        crate::path::list_holds(&self.items, path)
    }

    /// Makes the path a member.
    pub fn insert(&mut self, path: FilePath)
        requires
            old(self).wf(),
        ensures
            final(self).wf(),
            final(self)@ == old(self)@.insert(path@),
            final(self).order() == (if old(self)@.contains(path@) {
                old(self).order()
            } else {
                old(self).order().push(path@)
            }),
    {
        if self.contains(&path) {
            assert(self@ =~= old(self)@.insert(path@));
        } else {
            let ghost p = path@;
            self.items.push(path);
            proof {
                assert(self.order() =~= old(self).order().push(p));
                old(self).order().lemma_push_to_set_commute(p);
            }
        }
    }

    /// Takes the path out, where it is a member.
    pub fn remove(&mut self, path: &FilePath)
        requires
            old(self).wf(),
        ensures
            final(self).wf(),
            final(self)@ == old(self)@.remove(path@),
            final(self).order() == (if old(self)@.contains(path@) {
                old(self).order().remove(old(self).order().index_of(path@))
            } else {
                old(self).order()
            }),
    {
        let mut i: usize = 0;
        while i < self.items.len()
            invariant
                self.items == old(self).items,
                old(self).wf(),
                i <= self.items@.len(),
                forall|k: int| 0 <= k < i ==> self.order()[k] != path@,
            decreases self.items.len() - i,
        {
            if self.items[i].same(path) {
                let _ = self.items.remove(i);
                proof {
                    let before = old(self).order();
                    assert(before[i as int] == path@);
                    assert(self.order() =~= before.remove(i as int));
                    assert forall|q: PathView| #[trigger]
                        self@.contains(q) <==> old(self)@.remove(path@).contains(q) by {
                        if self@.contains(q) {
                            let j = self.order().index_of(q);
                            let o = if j < i { j } else { j + 1 };
                            assert(before[o] == q);
                        }
                        if old(self)@.contains(q) && q != path@ {
                            let o = before.index_of(q);
                            let j = if o < i { o } else { o - 1 };
                            assert(self.order()[j] == q);
                        }
                    }
                    assert(self@ =~= old(self)@.remove(path@));
                }
                return;
            }
            i = i + 1;
        }
        assert(self@ =~= old(self)@.remove(path@));
    }

    /// Takes every member out.
    pub fn clear(&mut self)
        ensures
            final(self).wf(),
            final(self)@ == Set::<PathView>::empty(),
            final(self).order() == Seq::<PathView>::empty(),
    {
        self.items.clear();
        assert(self.order() =~= Seq::<PathView>::empty());
        assert(self@ =~= Set::<PathView>::empty());
    }
}

} // verus!
