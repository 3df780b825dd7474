//! Paths as lists of components.

use vstd::prelude::*;
use vstd::string::*;

verus! {

/// One component of a path.
#[derive(Debug, PartialEq, Eq)]
pub enum Component {
    /// A drive or share, such as `C:`
    Prefix(String),
    /// The separator at the start of an absolute path
    RootDir,
    /// `.`
    CurDir,
    /// `..`
    ParentDir,
    /// A file or directory name
    Normal(String),
    /// A file or directory name that is not valid Unicode: the units that the system keeps it by,
    /// and the text that is shown for it
    Foreign(Vec<u16>, String),
    /// A drive or share that is not valid Unicode, held in the same way
    ForeignPrefix(Vec<u16>, String),
}

/// The mathematical value of a [`Component`].
pub enum ComponentView {
    Prefix(Seq<char>),
    RootDir,
    CurDir,
    ParentDir,
    Normal(Seq<char>),
    Foreign(Seq<u16>, Seq<char>),
    ForeignPrefix(Seq<u16>, Seq<char>),
}

/// The mathematical value of a [`FilePath`].
pub type PathView = Seq<ComponentView>;

impl View for Component {
    type V = ComponentView;

    open spec fn view(&self) -> ComponentView {
        match self {
            Component::Prefix(s) => ComponentView::Prefix(s@),
            Component::RootDir => ComponentView::RootDir,
            Component::CurDir => ComponentView::CurDir,
            Component::ParentDir => ComponentView::ParentDir,
            Component::Normal(s) => ComponentView::Normal(s@),
            Component::Foreign(units, s) => ComponentView::Foreign(units@, s@),
            Component::ForeignPrefix(units, s) => ComponentView::ForeignPrefix(units@, s@),
        }
    }
}

/// A path, absolute or relative.
#[derive(Debug, PartialEq, Eq)]
pub struct FilePath {
    pub components: Vec<Component>,
}

impl View for FilePath {
    type V = PathView;

    open spec fn view(&self) -> PathView {
        self.components@.map_values(|c: Component| c@)
    }
}

/// The views of a list of paths.
pub open spec fn paths(list: Seq<FilePath>) -> Seq<PathView> {
    list.map_values(|p: FilePath| p@)
}

/// The view of a path that may be missing.
pub open spec fn optional(p: Option<&FilePath>) -> Option<PathView> {
    match p {
        Some(q) => Some(q@),
        None => None,
    }
}

impl ComponentView {
    /// Whether a path that ends in this component has a parent.
    pub open spec fn has_parent(self) -> bool {
        !(self is Prefix) && !(self is RootDir) && !(self is ForeignPrefix)
    }

    /// The component's text, with `sep` as the separator.
    pub open spec fn text(self, sep: Seq<char>) -> Seq<char> {
        match self {
            ComponentView::Prefix(s) => s,
            ComponentView::RootDir => sep,
            ComponentView::CurDir => "."@,
            ComponentView::ParentDir => ".."@,
            ComponentView::Normal(s) => s,
            ComponentView::Foreign(_, s) => s,
            ComponentView::ForeignPrefix(_, s) => s,
        }
    }

    /// Whether the component is a file or directory name.
    pub open spec fn is_name(self) -> bool {
        self is Normal || self is Foreign
    }
}

/// The path without its last component; the empty path, a root and a drive have none.
pub open spec fn parent_of(p: PathView) -> Option<PathView> {
    if p.len() > 0 && p.last().has_parent() {
        Some(p.drop_last())
    } else {
        None
    }
}

/// Whether `a` is reached from `p` by taking the parent once or more.
pub open spec fn is_ancestor(a: PathView, p: PathView) -> bool {
    &&& a.len() < p.len()
    &&& a.is_prefix_of(p)
    &&& forall|j: int| a.len() <= j < p.len() ==> (#[trigger] p[j]).has_parent()
}

/// Whether `p` lies below `dir`.
pub open spec fn is_below(p: PathView, dir: PathView) -> bool {
    dir.is_prefix_of(p) && p != dir
}

/// The last component, where it is a name in valid Unicode.
pub open spec fn file_name_of(p: PathView) -> Option<Seq<char>> {
    if p.len() > 0 && p.last() is Normal {
        Some(p.last()->Normal_0)
    } else {
        None
    }
}

/// The text that is shown for the last component, where it is a name.
pub open spec fn shown_name_of(p: PathView) -> Option<Seq<char>> {
    if p.len() > 0 {
        match p.last() {
            ComponentView::Normal(s) => Some(s),
            ComponentView::Foreign(_, s) => Some(s),
            _ => None,
        }
    } else {
        None
    }
}

/// What follows `base` in `p`, where `p` begins with `base`.
pub open spec fn relative_to(p: PathView, base: PathView) -> Option<PathView> {
    if base.is_prefix_of(p) {
        Some(p.skip(base.len() as int))
    } else {
        None
    }
}

/// The path of the entry `name` in the directory `p`.
pub open spec fn child_of(p: PathView, name: Seq<char>) -> PathView {
    p.push(ComponentView::Normal(name))
}

/// The path as text, with `sep` as the separator.
pub open spec fn path_text(p: PathView, sep: Seq<char>) -> Seq<char>
    decreases p.len(),
{
    if p.len() == 0 {
        Seq::empty()
    } else if p.len() == 1 {
        p[0].text(sep)
    } else if p[p.len() - 2].has_parent() {
        path_text(p.drop_last(), sep) + sep + p.last().text(sep)
    } else {
        path_text(p.drop_last(), sep) + p.last().text(sep)
    }
}

/// Whether both lists hold the same units.
fn same_units(a: &Vec<u16>, b: &Vec<u16>) -> (r: bool)
    ensures
        r == (a@ == b@),
{
    if a.len() != b.len() {
        return false;
    }
    let mut i: usize = 0;
    while i < a.len()
        invariant
            i <= a@.len(),
            a@.len() == b@.len(),
            forall|k: int| 0 <= k < i ==> a@[k] == b@[k],
        decreases a.len() - i,
    {
        if a[i] != b[i] {
            return false;
        }
        i = i + 1;
    }
    assert(a@ =~= b@);
    true
}

/// A copy of a list of units.
fn copy_units(units: &Vec<u16>) -> (r: Vec<u16>)
    ensures
        r@ == units@,
{
    let mut r: Vec<u16> = Vec::new();
    let mut i: usize = 0;
    while i < units.len()
        invariant
            i <= units@.len(),
            r@ == units@.take(i as int),
        decreases units.len() - i,
    {
        r.push(units[i]);
        assert(r@ =~= units@.take(i + 1));
        i = i + 1;
    }
    assert(r@ =~= units@);
    r
}

impl Component {
    /// Whether the component is a file or directory name.
    pub fn is_name(&self) -> (r: bool)
        ensures
            r == self@.is_name(),
    {
        match self {
            Component::Normal(_) => true,
            Component::Foreign(_, _) => true,
            _ => false,
        }
    }

    /// Whether a path that ends in this component has a parent.
    pub fn has_parent(&self) -> (r: bool)
        ensures
            r == self@.has_parent(),
    {
        match self {
            Component::Prefix(_) => false,
            Component::RootDir => false,
            Component::ForeignPrefix(_, _) => false,
            _ => true,
        }
    }

    /// Whether both components are the same.
    pub fn same(&self, other: &Component) -> (r: bool)
        ensures
            r == (self@ == other@),
    {
        match (self, other) {
            (Component::Prefix(a), Component::Prefix(b)) => *a == *b,
            (Component::RootDir, Component::RootDir) => true,
            (Component::CurDir, Component::CurDir) => true,
            (Component::ParentDir, Component::ParentDir) => true,
            (Component::Normal(a), Component::Normal(b)) => *a == *b,
            (Component::Foreign(u, a), Component::Foreign(v, b)) => same_units(u, v) && *a == *b,
            (Component::ForeignPrefix(u, a), Component::ForeignPrefix(v, b)) => same_units(u, v)
                && *a == *b,
            _ => false,
        }
    }
}

impl Clone for Component {
    fn clone(&self) -> (r: Self)
        ensures
            r@ == self@,
    {
        match self {
            Component::Prefix(s) => Component::Prefix(s.clone()),
            Component::RootDir => Component::RootDir,
            Component::CurDir => Component::CurDir,
            Component::ParentDir => Component::ParentDir,
            Component::Normal(s) => Component::Normal(s.clone()),
            Component::Foreign(units, s) => Component::Foreign(copy_units(units), s.clone()),
            Component::ForeignPrefix(units, s) => Component::ForeignPrefix(
                copy_units(units),
                s.clone(),
            ),
        }
    }
}

impl Clone for FilePath {
    fn clone(&self) -> (r: Self)
        ensures
            r@ == self@,
    {
        self.first(self.components.len())
    }
}

impl FilePath {
    /// The empty path.
    pub fn new() -> (r: Self)
        ensures
            r@ == Seq::<ComponentView>::empty(),
    {
        let r = FilePath { components: Vec::new() };
        assert(r@ =~= Seq::<ComponentView>::empty());
        r
    }

    /// The current directory, `.`.
    pub fn current_dir() -> (r: Self)
        ensures
            r@ == seq![ComponentView::CurDir],
    {
        let mut components: Vec<Component> = Vec::new();
        components.push(Component::CurDir);
        let r = FilePath { components };
        assert(r@ =~= seq![ComponentView::CurDir]);
        r
    }

    /// The path of the first `n` components.
    fn first(&self, n: usize) -> (r: Self)
        requires
            n <= self.components@.len(),
        ensures
            r@ == self@.take(n as int),
    {
        self.slice(0, n)
    }

    /// The path of the components from `from` up to `to`.
    fn slice(&self, from: usize, to: usize) -> (r: Self)
        requires
            from <= to <= self.components@.len(),
        ensures
            r@ == self@.subrange(from as int, to as int),
    {
        let mut components: Vec<Component> = Vec::new();
        let mut i: usize = from;
        while i < to
            invariant
                from <= i <= to <= self.components@.len(),
                components@.len() == i - from,
                forall|k: int|
                    0 <= k < components@.len() ==> (#[trigger] components@[k])@ == self@[from + k],
            decreases to - i,
        {
            components.push(self.components[i].clone());
            i = i + 1;
        }
        let r = FilePath { components };
        assert(r@ =~= self@.subrange(from as int, to as int));
        r
    }

    /// Whether both paths have the same components.
    pub fn same(&self, other: &FilePath) -> (r: bool)
        ensures
            r == (self@ == other@),
    {
        if self.components.len() != other.components.len() {
            assert(self@.len() != other@.len());
            return false;
        }
        let mut i: usize = self.components.len();
        while i > 0
            invariant
                i <= self.components@.len(),
                self.components@.len() == other.components@.len(),
                forall|k: int| i <= k < self@.len() ==> self@[k] == other@[k],
            decreases i,
        {
            if !self.components[i - 1].same(&other.components[i - 1]) {
                assert(self@[i - 1] != other@[i - 1]);
                return false;
            }
            i = i - 1;
        }
        assert(self@ =~= other@);
        true
    }

    /// The path without its last component. The empty path, a root and a drive have no parent.
    pub fn parent(&self) -> (r: Option<FilePath>)
        ensures
            match r {
                Some(p) => parent_of(self@) == Some(p@),
                None => parent_of(self@) is None,
            },
    {
        let n = self.components.len();
        if n > 0 && self.components[n - 1].has_parent() {
            let p = self.first(n - 1);
            assert(p@ =~= self@.drop_last());
            Some(p)
        } else {
            None
        }
    }

    /// The text that is shown for the last component, where it is a file or directory name.
    pub fn shown_name(&self) -> (r: Option<String>)
        ensures
            match r {
                Some(s) => shown_name_of(self@) == Some(s@),
                None => shown_name_of(self@) is None,
            },
    {
        let n = self.components.len();
        if n == 0 {
            return None;
        }
        assert(self@.last() == self.components@[n - 1]@);
        match &self.components[n - 1] {
            Component::Normal(s) => Some(s.clone()),
            Component::Foreign(_, s) => Some(s.clone()),
            _ => None,
        }
    }

    /// The last component, where it is a file or directory name in valid Unicode.
    pub fn file_name(&self) -> (r: Option<String>)
        ensures
            match r {
                Some(s) => file_name_of(self@) == Some(s@),
                None => file_name_of(self@) is None,
            },
    {
        let n = self.components.len();
        if n == 0 {
            return None;
        }
        assert(self@.last() == self.components@[n - 1]@);
        match &self.components[n - 1] {
            Component::Normal(s) => Some(s.clone()),
            _ => None,
        }
    }

    /// Whether the path begins with the components of `base`.
    pub fn starts_with(&self, base: &FilePath) -> (r: bool)
        ensures
            r == base@.is_prefix_of(self@),
    {
        if base.components.len() > self.components.len() {
            return false;
        }
        let mut i: usize = 0;
        while i < base.components.len()
            invariant
                i <= base.components@.len() <= self.components@.len(),
                forall|k: int| 0 <= k < i ==> self@[k] == base@[k],
            decreases base.components.len() - i,
        {
            if !self.components[i].same(&base.components[i]) {
                assert(self@.subrange(0, base@.len() as int)[i as int] == self@[i as int]);
                assert(self@[i as int] != base@[i as int]);
                return false;
            }
            i = i + 1;
        }
        assert(self@.subrange(0, base@.len() as int) =~= base@);
        true
    }

    /// What follows `base`, where the path begins with it.
    pub fn strip_prefix(&self, base: &FilePath) -> (r: Option<FilePath>)
        ensures
            match r {
                Some(p) => relative_to(self@, base@) == Some(p@),
                None => relative_to(self@, base@) is None,
            },
    {
        if self.starts_with(base) {
            let p = self.slice(base.components.len(), self.components.len());
            assert(p@ =~= self@.skip(base@.len() as int));
            Some(p)
        } else {
            None
        }
    }

    /// The path of the entry `name` in this directory.
    pub fn child(&self, name: &str) -> (r: FilePath)
        ensures
            r@ == child_of(self@, name@),
    {
        let mut r = self.clone();
        let mut text = String::new();
        text.append(name);
        assert(text@ =~= name@);
        r.components.push(Component::Normal(text));
        assert(r@ =~= child_of(self@, name@));
        r
    }

    /// The path with one more component.
    pub fn with_component(&self, component: Component) -> (r: FilePath)
        ensures
            r@ == self@.push(component@),
    {
        let ghost c = component@;
        let mut r = self.clone();
        r.components.push(component);
        assert(r@ =~= self@.push(c));
        r
    }

    /// The path as text, with `sep` as the separator.
    pub fn to_text(&self, sep: &str) -> (r: String)
        ensures
            r@ == path_text(self@, sep@),
    {
        let mut r = String::new();
        let mut i: usize = 0;
        while i < self.components.len()
            invariant
                i <= self.components@.len(),
                r@ == path_text(self@.take(i as int), sep@),
            decreases self.components.len() - i,
        {
            proof {
                assert(self@.take(i + 1).drop_last() =~= self@.take(i as int));
            }
            if i > 0 && self.components[i - 1].has_parent() {
                r.append(sep);
            }
            match &self.components[i] {
                Component::Prefix(s) => r.append(s.as_str()),
                Component::RootDir => r.append(sep),
                Component::CurDir => r.append("."),
                Component::ParentDir => r.append(".."),
                Component::Normal(s) => r.append(s.as_str()),
                Component::Foreign(_, s) => r.append(s.as_str()),
                Component::ForeignPrefix(_, s) => r.append(s.as_str()),
            }
            assert(r@ =~= path_text(self@.take(i + 1), sep@));
            i = i + 1;
        }
        assert(self@.take(i as int) =~= self@);
        r
    }
}

/// A copy of a list of paths.
pub fn copy_paths(list: &Vec<FilePath>) -> (r: Vec<FilePath>)
    ensures
        paths(r@) == paths(list@),
{
    let mut r: Vec<FilePath> = Vec::new();
    let mut i: usize = 0;
    while i < list.len()
        invariant
            i <= list@.len(),
            paths(r@) == paths(list@).take(i as int),
        decreases list.len() - i,
    {
        let ghost before = paths(r@);
        r.push(list[i].clone());
        assert(paths(r@) =~= before.push(paths(list@)[i as int]));
        assert(paths(r@) =~= paths(list@).take(i + 1));
        i = i + 1;
    }
    assert(paths(list@).take(i as int) =~= paths(list@));
    r
}

/// Whether the list holds the path.
pub fn list_holds(list: &Vec<FilePath>, path: &FilePath) -> (r: bool)
    ensures
        r == paths(list@).contains(path@),
{
    let mut i: usize = 0;
    while i < list.len()
        invariant
            i <= list@.len(),
            forall|k: int| 0 <= k < i ==> paths(list@)[k] != path@,
        decreases list.len() - i,
    {
        if list[i].same(path) {
            assert(paths(list@)[i as int] == path@);
            return true;
        }
        i = i + 1;
    }
    false
}

} // verus!
