//! Paths as sequences of components, their order, and paths inside a project.

use vstd::prelude::*;

verus! {

/// One component of a path, with the name of a file or directory as raw bytes.
#[derive(Debug, PartialEq, Eq)]
pub enum Component {
    RootDir,
    CurDir,
    ParentDir,
    Normal(Vec<u8>),
}

/// What a component is, with its name as a sequence of bytes.
#[verifier::ext_equal]
pub enum ComponentView {
    RootDir,
    CurDir,
    ParentDir,
    Normal(Seq<u8>),
}

impl View for Component {
    type V = ComponentView;

    open spec fn view(&self) -> ComponentView {
        match self {
            Component::RootDir => ComponentView::RootDir,
            Component::CurDir => ComponentView::CurDir,
            Component::ParentDir => ComponentView::ParentDir,
            Component::Normal(name) => ComponentView::Normal(name@),
        }
    }
}

/// A path: the list of its components.
#[derive(Debug, PartialEq, Eq)]
pub struct PathBuf {
    pub components: Vec<Component>,
}

impl View for PathBuf {
    type V = Seq<ComponentView>;

    open spec fn view(&self) -> Seq<ComponentView> {
        self.components@.map_values(|c: Component| c@)
    }
}

/// The views of a list of paths.
pub open spec fn path_views(paths: Seq<PathBuf>) -> Seq<Seq<ComponentView>> {
    paths.map_values(|p: PathBuf| p@)
}

/// The three ways in which two values can stand to each other in a total order.
#[derive(Clone, Copy, Debug, PartialEq, Eq, Structural)]
pub enum Rank {
    Before,
    Same,
    After,
}

/// `a` stands before `b` in the lexicographic order over `less`: at the first place
/// where they differ either `a` has ended, or its element there is the lesser one.
pub open spec fn lex_less<T>(a: Seq<T>, b: Seq<T>, less: spec_fn(T, T) -> bool) -> bool {
    exists|k: int| lex_less_at(a, b, less, k)
}

/// `k` is the place that decides that `a` stands before `b`.
pub open spec fn lex_less_at<T>(a: Seq<T>, b: Seq<T>, less: spec_fn(T, T) -> bool, k: int) -> bool {
    &&& 0 <= k <= a.len()
    &&& k < b.len()
    &&& a.take(k) == b.take(k)
    &&& k == a.len() || less(a[k], b[k])
}

/// The order of two bytes.
pub open spec fn byte_less() -> spec_fn(u8, u8) -> bool {
    |a: u8, b: u8| a < b
}

/// The place of a kind of component among the kinds.
pub open spec fn component_kind(c: ComponentView) -> int {
    match c {
        ComponentView::RootDir => 0,
        ComponentView::CurDir => 1,
        ComponentView::ParentDir => 2,
        ComponentView::Normal(_) => 3,
    }
}

/// The order of two components: by kind, and names byte by byte.
pub open spec fn component_less() -> spec_fn(ComponentView, ComponentView) -> bool {
    |a: ComponentView, b: ComponentView|
        component_kind(a) < component_kind(b) || (a is Normal && b is Normal && lex_less(
            a->Normal_0,
            b->Normal_0,
            byte_less(),
        ))
}

/// The order of two paths: component by component.
pub open spec fn path_less(a: Seq<ComponentView>, b: Seq<ComponentView>) -> bool {
    lex_less(a, b, component_less())
}

/// `less` is a strict total order.
pub open spec fn strict_total_order<T>(less: spec_fn(T, T) -> bool) -> bool {
    &&& forall|a: T| !#[trigger] less(a, a)
    &&& forall|a: T, b: T| #[trigger] less(a, b) ==> !less(b, a)
    &&& forall|a: T, b: T| a != b ==> #[trigger] less(a, b) || less(b, a)
    &&& forall|a: T, b: T, c: T| #[trigger] less(a, b) && #[trigger] less(b, c) ==> less(a, c)
}

proof fn lemma_lex_irreflexive<T>(a: Seq<T>, less: spec_fn(T, T) -> bool)
    requires
        strict_total_order(less),
    ensures
        !lex_less(a, a, less),
{
    if lex_less(a, a, less) {
        let k = choose|k: int| lex_less_at(a, a, less, k);
        assert(less(a[k], a[k]));
    }
}

proof fn lemma_lex_transitive<T>(a: Seq<T>, b: Seq<T>, c: Seq<T>, less: spec_fn(T, T) -> bool)
    requires
        strict_total_order(less),
        lex_less(a, b, less),
        lex_less(b, c, less),
    ensures
        lex_less(a, c, less),
{
    let i = choose|k: int| lex_less_at(a, b, less, k);
    let j = choose|k: int| lex_less_at(b, c, less, k);
    let k = if i < j { i } else { j };
    assert(a.take(k) =~= c.take(k)) by {
        assert(a.take(k) =~= a.take(i).take(k));
        assert(b.take(k) =~= b.take(i).take(k));
        assert(b.take(k) =~= b.take(j).take(k));
        assert(c.take(k) =~= c.take(j).take(k));
    }
    if i < j {
        assert(b.take(j)[i] == c.take(j)[i]);
    } else if j < i {
        assert(a.take(i)[j] == b.take(i)[j]);
    } else if i < a.len() {
        assert(less(a[i], b[i]));
        assert(less(b[i], c[i]));
    }
    assert(lex_less_at(a, c, less, k));
}

/// The first place from `i` on where `a` and `b` differ or one of them ends decides
/// between them.
proof fn lemma_lex_total<T>(a: Seq<T>, b: Seq<T>, less: spec_fn(T, T) -> bool, i: int)
    requires
        strict_total_order(less),
        0 <= i <= a.len(),
        i <= b.len(),
        a.take(i) == b.take(i),
        a != b,
    ensures
        lex_less(a, b, less) || lex_less(b, a, less),
    decreases a.len() - i,
{
    if i == a.len() && i == b.len() {
        assert(a.take(i) =~= a);
        assert(b.take(i) =~= b);
    } else if i == a.len() {
        assert(lex_less_at(a, b, less, i));
    } else if i == b.len() {
        assert(lex_less_at(b, a, less, i));
    } else if a[i] == b[i] {
        assert(a.take(i + 1) =~= a.take(i).push(a[i]));
        assert(b.take(i + 1) =~= b.take(i).push(b[i]));
        lemma_lex_total(a, b, less, i + 1);
    } else if less(a[i], b[i]) {
        assert(lex_less_at(a, b, less, i));
    } else {
        assert(less(b[i], a[i]));
        assert(lex_less_at(b, a, less, i));
    }
}

/// The lexicographic order over a strict total order is itself one.
pub proof fn lemma_lex_is_order<T>(less: spec_fn(T, T) -> bool)
    requires
        strict_total_order(less),
    ensures
        strict_total_order(|a: Seq<T>, b: Seq<T>| lex_less(a, b, less)),
{
    let lex = |a: Seq<T>, b: Seq<T>| lex_less(a, b, less);
    assert forall|a: Seq<T>| !#[trigger] lex(a, a) by {
        lemma_lex_irreflexive(a, less);
    }
    assert forall|a: Seq<T>, b: Seq<T>| #[trigger] lex(a, b) implies !lex(b, a) by {
        if lex(b, a) {
            lemma_lex_transitive(a, b, a, less);
            lemma_lex_irreflexive(a, less);
        }
    }
    assert forall|a: Seq<T>, b: Seq<T>| a != b implies #[trigger] lex(a, b) || lex(b, a) by {
        assert(a.take(0) =~= b.take(0));
        lemma_lex_total(a, b, less, 0);
    }
    assert forall|a: Seq<T>, b: Seq<T>, c: Seq<T>| #[trigger]
        lex(a, b) && #[trigger] lex(b, c) implies lex(a, c) by {
        lemma_lex_transitive(a, b, c, less);
    }
}

/// Components are totally ordered.
pub proof fn lemma_component_order()
    ensures
        strict_total_order(component_less()),
{
    lemma_lex_is_order(byte_less());
    let lex = |a: Seq<u8>, b: Seq<u8>| lex_less(a, b, byte_less());
    let less = component_less();
    assert forall|a: ComponentView| !#[trigger] less(a, a) by {
        if a is Normal {
            assert(!lex(a->Normal_0, a->Normal_0));
        }
    }
    assert forall|a: ComponentView, b: ComponentView| #[trigger] less(a, b) implies !less(b, a) by {
        if a is Normal && b is Normal {
            assert(lex(a->Normal_0, b->Normal_0));
        }
    }
    assert forall|a: ComponentView, b: ComponentView| a != b implies #[trigger] less(a, b) || less(
        b,
        a,
    ) by {
        if a is Normal && b is Normal {
            assert(a->Normal_0 != b->Normal_0);
            assert(lex(a->Normal_0, b->Normal_0) || lex(b->Normal_0, a->Normal_0));
        }
    }
    assert forall|a: ComponentView, b: ComponentView, c: ComponentView| #[trigger]
        less(a, b) && #[trigger] less(b, c) implies less(a, c) by {
        if a is Normal && b is Normal && c is Normal {
            assert(lex(a->Normal_0, b->Normal_0));
            assert(lex(b->Normal_0, c->Normal_0));
        }
    }
}

/// Paths are totally ordered.
pub proof fn lemma_path_order()
    ensures
        strict_total_order(|a: Seq<ComponentView>, b: Seq<ComponentView>| path_less(a, b)),
{
    lemma_component_order();
    lemma_lex_is_order(component_less());
    let lex = |a: Seq<ComponentView>, b: Seq<ComponentView>| lex_less(a, b, component_less());
    let less = |a: Seq<ComponentView>, b: Seq<ComponentView>| path_less(a, b);
    assert(less =~= lex);
}

/// A directory stands before everything inside it.
pub proof fn lemma_parent_before_child(parent: Seq<ComponentView>, child: Seq<ComponentView>)
    requires
        parent.is_prefix_of(child),
        parent != child,
    ensures
        path_less(parent, child),
{
    let k = parent.len() as int;
    assert(parent.take(k) =~= child.take(k));
    if child.len() == parent.len() {
        assert(parent =~= child);
    }
    assert(lex_less_at(parent, child, component_less(), k));
}

/// How two names stand to each other.
fn rank_names(a: &Vec<u8>, b: &Vec<u8>) -> (rank: Rank)
    ensures
        rank == Rank::Same <==> a@ == b@,
        rank == Rank::Before <==> lex_less(a@, b@, byte_less()),
        rank == Rank::After <==> lex_less(b@, a@, byte_less()),
{
    let ghost less = byte_less();
    proof {
        lemma_lex_is_order(less);
        let lex = |x: Seq<u8>, y: Seq<u8>| lex_less(x, y, less);
        assert(lex(a@, b@) ==> !lex(b@, a@));
        assert(!lex(a@, a@));
    }
    let mut i: usize = 0;
    while i < a.len() && i < b.len()
        invariant
            i <= a.len(),
            i <= b.len(),
            a@.take(i as int) == b@.take(i as int),
            less == byte_less(),
            lex_less(a@, b@, less) ==> !lex_less(b@, a@, less),
            a@ == b@ ==> !lex_less(a@, b@, less),
        decreases a.len() - i,
    {
        if a[i] < b[i] {
            assert(lex_less_at(a@, b@, less, i as int));
            return Rank::Before;
        }
        if b[i] < a[i] {
            assert(lex_less_at(b@, a@, less, i as int));
            return Rank::After;
        }
        assert(a@.take(i + 1) =~= a@.take(i as int).push(a@[i as int]));
        assert(b@.take(i + 1) =~= b@.take(i as int).push(b@[i as int]));
        i += 1;
    }
    if i < b.len() {
        assert(lex_less_at(a@, b@, less, i as int));
        Rank::Before
    } else if i < a.len() {
        assert(lex_less_at(b@, a@, less, i as int));
        Rank::After
    } else {
        assert(a@ =~= a@.take(i as int));
        assert(b@ =~= b@.take(i as int));
        Rank::Same
    }
}

/// How two components stand to each other.
fn rank_components(a: &Component, b: &Component) -> (rank: Rank)
    ensures
        rank == Rank::Same <==> a@ == b@,
        rank == Rank::Before <==> component_less()(a@, b@),
        rank == Rank::After <==> component_less()(b@, a@),
{
    match (a, b) {
        (Component::Normal(x), Component::Normal(y)) => rank_names(x, y),
        _ => {
            let x: u8 = kind_of(a);
            let y: u8 = kind_of(b);
            if x < y {
                Rank::Before
            } else if y < x {
                Rank::After
            } else {
                Rank::Same
            }
        },
    }
}

fn kind_of(c: &Component) -> (kind: u8)
    ensures
        kind == component_kind(c@),
{
    match c {
        Component::RootDir => 0,
        Component::CurDir => 1,
        Component::ParentDir => 2,
        Component::Normal(_) => 3,
    }
}

fn same_component(a: &Component, b: &Component) -> (same: bool)
    ensures
        same == (a@ == b@),
{
    match rank_components(a, b) {
        Rank::Same => true,
        _ => false,
    }
}

/// How two paths stand to each other.
pub fn rank_paths(a: &PathBuf, b: &PathBuf) -> (rank: Rank)
    ensures
        rank == Rank::Same <==> a@ == b@,
        rank == Rank::Before <==> path_less(a@, b@),
        rank == Rank::After <==> path_less(b@, a@),
{
    let ghost less = component_less();
    proof {
        lemma_path_order();
        let lex = |x: Seq<ComponentView>, y: Seq<ComponentView>| path_less(x, y);
        assert(lex(a@, b@) ==> !lex(b@, a@));
        assert(!lex(a@, a@));
    }
    let mut i: usize = 0;
    while i < a.components.len() && i < b.components.len()
        invariant
            i <= a.components.len(),
            i <= b.components.len(),
            a@.take(i as int) == b@.take(i as int),
            less == component_less(),
            path_less(a@, b@) ==> !path_less(b@, a@),
            a@ == b@ ==> !path_less(a@, b@),
        decreases a.components.len() - i,
    {
        match rank_components(&a.components[i], &b.components[i]) {
            Rank::Before => {
                assert(lex_less_at(a@, b@, less, i as int));
                return Rank::Before;
            },
            Rank::After => {
                assert(lex_less_at(b@, a@, less, i as int));
                return Rank::After;
            },
            Rank::Same => {},
        }
        assert(a@.take(i + 1) =~= a@.take(i as int).push(a@[i as int]));
        assert(b@.take(i + 1) =~= b@.take(i as int).push(b@[i as int]));
        i += 1;
    }
    if i < b.components.len() {
        assert(lex_less_at(a@, b@, less, i as int));
        Rank::Before
    } else if i < a.components.len() {
        assert(lex_less_at(b@, a@, less, i as int));
        Rank::After
    } else {
        assert(a@ =~= a@.take(i as int));
        assert(b@ =~= b@.take(i as int));
        Rank::Same
    }
}

impl Clone for Component {
    fn clone(&self) -> (copy: Self)
        ensures
            copy@ == self@,
    {
        match self {
            Component::RootDir => Component::RootDir,
            Component::CurDir => Component::CurDir,
            Component::ParentDir => Component::ParentDir,
            Component::Normal(name) => {
                let name = name.clone();
                Component::Normal(name)
            },
        }
    }
}

impl Clone for PathBuf {
    fn clone(&self) -> (copy: Self)
        ensures
            copy@ == self@,
    {
        let mut components: Vec<Component> = Vec::new();
        let mut i: usize = 0;
        while i < self.components.len()
            invariant
                i <= self.components.len(),
                components.len() == i,
                forall|j: int| 0 <= j < i ==> (#[trigger] components@[j])@ == self.components@[j]@,
            decreases self.components.len() - i,
        {
            components.push(self.components[i].clone());
            i += 1;
        }
        let copy = PathBuf { components };
        assert(copy@ =~= self@);
        copy
    }
}

/// The name that a path ends in, unless it ends in something else than a name.
pub open spec fn file_name(path: Seq<ComponentView>) -> Option<Seq<u8>> {
    if path.len() > 0 && path.last() is Normal {
        Some(path.last()->Normal_0)
    } else {
        None
    }
}

impl PathBuf {
    /// Whether two paths have the same components.
    pub fn same(&self, other: &PathBuf) -> (same: bool)
        ensures
            same == (self@ == other@),
    {
        match rank_paths(self, other) {
            Rank::Same => true,
            _ => false,
        }
    }

    /// The name that the path ends in, unless it ends in something else than a name.
    pub fn file_name(&self) -> (name: Option<&Vec<u8>>)
        ensures
            match name {
                Some(name) => file_name(self@) == Some(name@),
                None => file_name(self@) is None,
            },
    {
        let n: usize = self.components.len();
        if n == 0 {
            return None;
        }
        match &self.components[n - 1] {
            Component::Normal(name) => Some(name),
            _ => None,
        }
    }

    /// What is left of the path behind `base`, if the path starts with `base`.
    pub fn strip_prefix(&self, base: &PathBuf) -> (rest: Option<PathBuf>)
        ensures
            rest is Some <==> base@.is_prefix_of(self@),
            rest matches Some(rest) ==> self@ == base@ + rest@,
    {
        if base.components.len() > self.components.len() {
            return None;
        }
        let mut i: usize = 0;
        while i < base.components.len()
            invariant
                i <= base.components.len() <= self.components.len(),
                forall|j: int| 0 <= j < i ==> #[trigger] base@[j] == self@[j],
            decreases base.components.len() - i,
        {
            if !same_component(&base.components[i], &self.components[i]) {
                assert(base@[i as int] != self@[i as int]);
                return None;
            }
            assert(base@[i as int] == self@[i as int]);
            i += 1;
        }
        let mut components: Vec<Component> = Vec::new();
        while i < self.components.len()
            invariant
                base.components.len() <= i <= self.components.len(),
                components.len() == i - base.components.len(),
                forall|j: int|
                    0 <= j < components.len() ==> (#[trigger] components@[j])@ == self@[j
                        + base.components.len()],
            decreases self.components.len() - i,
        {
            components.push(self.components[i].clone());
            i += 1;
        }
        let rest = PathBuf { components };
        assert(self@ =~= base@ + rest@);
        Some(rest)
    }
}

/// A list of paths in which no path stands before a lesser one.
pub open spec fn sorted(paths: Seq<Seq<ComponentView>>) -> bool {
    forall|i: int, j: int| 0 <= i < j < paths.len() ==> !path_less(#[trigger] paths[j], #[trigger] paths[i])
}

proof fn lemma_insert_multiset<T>(s: Seq<T>, i: int, x: T)
    requires
        0 <= i <= s.len(),
    ensures
        s.insert(i, x).to_multiset() =~= s.to_multiset().insert(x),
{
    broadcast use vstd::seq_lib::group_to_multiset_ensures;

    assert(s.insert(i, x) =~= s.take(i).push(x) + s.skip(i));
    assert(s =~= s.take(i) + s.skip(i));
    vstd::seq_lib::lemma_multiset_commutative(s.take(i).push(x), s.skip(i));
    vstd::seq_lib::lemma_multiset_commutative(s.take(i), s.skip(i));
}

/// Puts paths in order, parents before their children.
pub fn sort_paths(paths: Vec<PathBuf>) -> (sorted_paths: Vec<PathBuf>)
    ensures
        sorted(path_views(sorted_paths@)),
        path_views(sorted_paths@).to_multiset() == path_views(paths@).to_multiset(),
{
    let ghost total = path_views(paths@).to_multiset();
    let mut left = paths;
    let mut done: Vec<PathBuf> = Vec::new();
    proof {
        lemma_path_order();
    }
    assert(path_views(done@).to_multiset().add(path_views(left@).to_multiset()) =~= total) by {
        broadcast use vstd::seq_lib::group_to_multiset_ensures;

        assert(path_views(done@) =~= Seq::empty());
    }
    while left.len() > 0
        invariant
            strict_total_order(|a: Seq<ComponentView>, b: Seq<ComponentView>| path_less(a, b)),
            sorted(path_views(done@)),
            path_views(done@).to_multiset().add(path_views(left@).to_multiset()) == total,
        decreases left.len(),
    {
        let ghost before_left = path_views(left@);
        let ghost before_done = path_views(done@);
        let path = match left.pop() {
            Some(path) => path,
            None => {
                return done;
            },
        };
        let ghost p = path@;
        let mut i: usize = 0;
        while i < done.len()
            invariant_except_break
                i <= done.len(),
                path_views(done@) == before_done,
                path@ == p,
                forall|j: int| 0 <= j < i ==> !path_less(p, #[trigger] before_done[j]),
            ensures
                i <= done.len(),
                path_views(done@) == before_done,
                path@ == p,
                forall|j: int| 0 <= j < i ==> !path_less(p, #[trigger] before_done[j]),
                i < done.len() ==> path_less(p, before_done[i as int]),
            decreases done.len() - i,
        {
            match rank_paths(&path, &done[i]) {
                Rank::Before => {
                    assert(path_less(p, before_done[i as int]));
                    break;
                },
                _ => {},
            }
            assert(!path_less(p, before_done[i as int]));
            i += 1;
        }
        done.insert(i, path);
        proof {
            let less = |a: Seq<ComponentView>, b: Seq<ComponentView>| path_less(a, b);
            let after = path_views(done@);
            assert(after =~= before_done.insert(i as int, p));
            lemma_insert_multiset(before_done, i as int, p);
            assert(before_left =~= path_views(left@).push(p));
            broadcast use vstd::seq_lib::group_to_multiset_ensures;

            assert(after.to_multiset().add(path_views(left@).to_multiset()) =~= total);
            assert forall|x: int, y: int| 0 <= x < y < after.len() implies !path_less(
                #[trigger] after[y],
                #[trigger] after[x],
            ) by {
                if x == i {
                    let f = before_done[y - 1];
                    if y - 1 > i {
                        assert(!path_less(f, before_done[i as int]));
                        if less(f, p) {
                            assert(less(p, before_done[i as int]));
                            assert(less(f, before_done[i as int]));
                        }
                    } else {
                        assert(less(p, f));
                    }
                } else if y == i {
                    assert(!path_less(p, before_done[x]));
                } else {
                    let fx = if x < i { x } else { x - 1 };
                    let fy = if y < i { y } else { y - 1 };
                    assert(!path_less(before_done[fy], before_done[fx]));
                }
            }
        }
    }
    assert(path_views(done@).to_multiset() =~= total) by {
        broadcast use vstd::seq_lib::group_to_multiset_ensures;

        assert(path_views(left@) =~= Seq::empty());
    }
    done
}

/// In a sorted list every directory stands before everything inside it.
pub proof fn law_sorted_parents_first(
    paths: Seq<Seq<ComponentView>>,
    parent: int,
    child: int,
)
    requires
        sorted(paths),
        0 <= parent < paths.len(),
        0 <= child < paths.len(),
        paths[parent].is_prefix_of(paths[child]),
        paths[parent] != paths[child],
    ensures
        parent < child,
{
    lemma_parent_before_child(paths[parent], paths[child]);
    if child < parent {
        assert(!path_less(paths[parent], paths[child]));
    }
}

/// A path inside a project: the worktree that holds it and the path below its root.
#[derive(Debug, PartialEq, Eq)]
pub struct ProjectPath {
    pub worktree_id: u64,
    pub path: PathBuf,
}

#[verifier::ext_equal]
pub struct ProjectPathView {
    pub worktree_id: u64,
    pub path: Seq<ComponentView>,
}

impl View for ProjectPath {
    type V = ProjectPathView;

    open spec fn view(&self) -> ProjectPathView {
        ProjectPathView { worktree_id: self.worktree_id, path: self.path@ }
    }
}

impl Clone for ProjectPath {
    fn clone(&self) -> (copy: Self)
        ensures
            copy@ == self@,
    {
        ProjectPath { worktree_id: self.worktree_id, path: self.path.clone() }
    }
}

impl ProjectPath {
    /// Whether both name the same path in the same worktree.
    pub fn same(&self, other: &ProjectPath) -> (same: bool)
        ensures
            same == (self@ == other@),
    {
        self.worktree_id == other.worktree_id && self.path.same(&other.path)
    }
}

/// The view of an optional project path.
pub open spec fn project_path_view(path: Option<ProjectPath>) -> Option<ProjectPathView> {
    match path {
        Some(path) => Some(path@),
        None => None,
    }
}

/// A copy of an optional project path.
pub fn copy_project_path(path: &Option<ProjectPath>) -> (copy: Option<ProjectPath>)
    ensures
        project_path_view(copy) == project_path_view(*path),
{
    match path {
        Some(path) => Some(path.clone()),
        None => None,
    }
}

proof fn lemma_first_difference<T>(
    start: Seq<T>,
    x: T,
    y: T,
    behind_x: Seq<T>,
    behind_y: Seq<T>,
    less: spec_fn(T, T) -> bool,
)
    requires
        less(x, y),
    ensures
        lex_less(start.push(x) + behind_x, start.push(y) + behind_y, less),
        lex_less(start, start.push(y) + behind_y, less),
{
    let a = start.push(x) + behind_x;
    let b = start.push(y) + behind_y;
    let k = start.len() as int;
    assert(a.take(k) =~= b.take(k));
    assert(a[k] == x && b[k] == y);
    assert(lex_less_at(a, b, less, k));
    assert(start.take(k) =~= b.take(k));
    assert(lex_less_at(start, b, less, k));
}

/// Names stand in the order of their bytes: the first byte in which they differ decides, and a
/// name stands before every longer one that starts with it.
pub proof fn law_names_ordered(
    start: Seq<u8>,
    x: u8,
    y: u8,
    behind_x: Seq<u8>,
    behind_y: Seq<u8>,
)
    requires
        x < y,
    ensures
        component_less()(
            ComponentView::Normal(start.push(x) + behind_x),
            ComponentView::Normal(start.push(y) + behind_y),
        ),
        component_less()(
            ComponentView::Normal(start),
            ComponentView::Normal(start.push(y) + behind_y),
        ),
{
    lemma_first_difference(start, x, y, behind_x, behind_y, byte_less());
}

/// The root stands before the directory itself, that before the parent, and that before every
/// name.
pub proof fn law_kinds_ordered(name: Seq<u8>)
    ensures
        component_less()(ComponentView::RootDir, ComponentView::CurDir),
        component_less()(ComponentView::CurDir, ComponentView::ParentDir),
        component_less()(ComponentView::ParentDir, ComponentView::Normal(name)),
{
}

/// Of two paths the first component in which they differ decides which stands before the other;
/// a path stands before everything below it. Of two different paths exactly one stands before
/// the other.
pub proof fn law_paths_ordered(
    start: Seq<ComponentView>,
    x: ComponentView,
    y: ComponentView,
    behind_x: Seq<ComponentView>,
    behind_y: Seq<ComponentView>,
)
    requires
        component_less()(x, y),
    ensures
        path_less(start.push(x) + behind_x, start.push(y) + behind_y),
        !path_less(start.push(y) + behind_y, start.push(x) + behind_x),
        path_less(start, start.push(y) + behind_y),
        !path_less(start.push(y) + behind_y, start),
{
    lemma_first_difference(start, x, y, behind_x, behind_y, component_less());
    lemma_path_order();
    let less = |a: Seq<ComponentView>, b: Seq<ComponentView>| path_less(a, b);
    assert(less(start.push(x) + behind_x, start.push(y) + behind_y));
    assert(less(start, start.push(y) + behind_y));
}

/// Paths of one list stand in one order only: two lists that are sorted and hold the same paths
/// are the same.
pub proof fn law_one_order(a: Seq<Seq<ComponentView>>, b: Seq<Seq<ComponentView>>)
    requires
        sorted(a),
        sorted(b),
        a.to_multiset() == b.to_multiset(),
    ensures
        a == b,
    decreases a.len(),
{
    broadcast use vstd::seq_lib::group_to_multiset_ensures;

    assert(a.len() == a.to_multiset().len() && b.len() == b.to_multiset().len());
    if a.len() > 0 {
        lemma_path_order();
        let less = |a: Seq<ComponentView>, b: Seq<ComponentView>| path_less(a, b);
        let x = a.last();
        let y = b.last();
        assert(a.contains(x) && b.contains(y));
        assert(b.to_multiset().count(x) > 0 && a.to_multiset().count(y) > 0);
        assert(b.contains(x) && a.contains(y));
        let i = b.index_of(x);
        let j = a.index_of(y);
        assert(!less(y, x)) by {
            if i < b.len() - 1 {
                assert(!path_less(b[b.len() - 1], b[i]));
            }
        }
        assert(!less(x, y)) by {
            if j < a.len() - 1 {
                assert(!path_less(a[a.len() - 1], a[j]));
            }
        }
        assert(x == y);
        let c = a.drop_last();
        let d = b.drop_last();
        assert(a =~= c.push(x));
        assert(b =~= d.push(x));
        assert(c.to_multiset() =~= a.to_multiset().remove(x));
        assert(d.to_multiset() =~= b.to_multiset().remove(x));
        assert forall|i: int, j: int| 0 <= i < j < c.len() implies !path_less(
            #[trigger] c[j],
            #[trigger] c[i],
        ) by {
            assert(!path_less(a[j], a[i]));
        }
        assert forall|i: int, j: int| 0 <= i < j < d.len() implies !path_less(
            #[trigger] d[j],
            #[trigger] d[i],
        ) by {
            assert(!path_less(b[j], b[i]));
        }
        law_one_order(c, d);
    } else {
        assert(a =~= b);
    }
}

/// A path that ends in a name has that name; one that ends in anything else, or has no
/// components, has none.
pub proof fn law_file_name(path: Seq<ComponentView>, name: Seq<u8>)
    ensures
        file_name(path.push(ComponentView::Normal(name))) == Some(name),
        file_name(path.push(ComponentView::RootDir)) is None,
        file_name(path.push(ComponentView::CurDir)) is None,
        file_name(path.push(ComponentView::ParentDir)) is None,
        file_name(Seq::empty()) is None,
{
}

} // verus!
