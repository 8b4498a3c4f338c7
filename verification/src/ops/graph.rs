//! Directed graphs over named vertices, and the pipe graph of a manifest:
//! an edge runs from each upstream pipe to the pipe that reads from it.
use crate::models::pipe::{pipe_upstreams, Pipe};
use crate::models::Entity;
use crate::text::{str_eq, views};
use vstd::prelude::*;

verus! {

/// The ids of `ids` whose positions satisfy `keep`, in order.
pub open spec fn pick(ids: Seq<Seq<char>>, keep: spec_fn(int) -> bool) -> Seq<Seq<char>>
    decreases ids.len(),
{
    if ids.len() == 0 {
        Seq::empty()
    } else {
        let rest = pick(ids.drop_last(), keep);
        if keep(ids.len() - 1) {
            rest.push(ids.last())
        } else {
            rest
        }
    }
}

/// The number of `true` entries of `s`.
pub open spec fn count_true(s: Seq<bool>) -> nat
    decreases s.len(),
{
    if s.len() == 0 {
        0
    } else {
        count_true(s.drop_last()) + if s.last() {
            1nat
        } else {
            0nat
        }
    }
}

/// What `pick` keeps is exactly the ids at kept positions.
pub proof fn lemma_pick_contains(ids: Seq<Seq<char>>, keep: spec_fn(int) -> bool, x: Seq<char>)
    ensures
        pick(ids, keep).contains(x) <==> exists|j: int| 0 <= j < ids.len() && keep(j) && ids[j] == x,
    decreases ids.len(),
{
    if ids.len() > 0 {
        lemma_pick_contains(ids.drop_last(), keep, x);
        let rest = pick(ids.drop_last(), keep);
        if pick(ids, keep).contains(x) {
            if rest.contains(x) {
                let j = choose|j: int| 0 <= j < ids.drop_last().len() && keep(j) && ids.drop_last()[j] == x;
                assert(ids[j] == x);
            } else {
                let k = choose|k: int| 0 <= k < pick(ids, keep).len() && pick(ids, keep)[k] == x;
                assert(k == rest.len());
                assert(ids[ids.len() - 1] == x);
            }
        }
        if exists|j: int| 0 <= j < ids.len() && keep(j) && ids[j] == x {
            let j = choose|j: int| 0 <= j < ids.len() && keep(j) && ids[j] == x;
            if j < ids.len() - 1 {
                assert(ids.drop_last()[j] == x);
                let k = choose|k: int| 0 <= k < rest.len() && rest[k] == x;
                assert(pick(ids, keep)[k] == x);
            } else {
                assert(pick(ids, keep)[pick(ids, keep).len() - 1] == x);
            }
        }
    }
}

/// `pick` over a prefix one longer.
pub proof fn lemma_pick_step(ids: Seq<Seq<char>>, keep: spec_fn(int) -> bool, i: int)
    requires
        0 <= i < ids.len(),
    ensures
        pick(ids.take(i + 1), keep) == (if keep(i) {
            pick(ids.take(i), keep).push(ids[i])
        } else {
            pick(ids.take(i), keep)
        }),
{
    assert(ids.take(i + 1).drop_last() =~= ids.take(i));
}

/// Counting over a prefix one longer.
pub proof fn lemma_count_step(s: Seq<bool>, i: int)
    requires
        0 <= i < s.len(),
    ensures
        count_true(s.take(i + 1)) == count_true(s.take(i)) + if s[i] {
            1nat
        } else {
            0nat
        },
{
    assert(s.take(i + 1).drop_last() =~= s.take(i));
}

/// A count never exceeds the length.
pub proof fn lemma_count_bound(s: Seq<bool>)
    ensures
        count_true(s) <= s.len(),
    decreases s.len(),
{
    if s.len() > 0 {
        lemma_count_bound(s.drop_last());
    }
}

/// Setting one `false` entry to `true` adds one to the count.
pub proof fn lemma_count_set(s: Seq<bool>, i: int)
    requires
        0 <= i < s.len(),
        !s[i],
    ensures
        count_true(s.update(i, true)) == count_true(s) + 1,
    decreases s.len(),
{
    let t = s.update(i, true);
    if i == s.len() - 1 {
        assert(t.drop_last() =~= s.drop_last());
    } else {
        lemma_count_set(s.drop_last(), i);
        assert(t.drop_last() =~= s.drop_last().update(i, true));
    }
}

/// What a sequence holds after a push.
pub proof fn lemma_push_contains(s: Seq<usize>, x: usize, y: usize)
    ensures
        s.push(x).contains(y) <==> (s.contains(y) || y == x),
{
    if s.push(x).contains(y) {
        let k = choose|k: int| 0 <= k < s.push(x).len() && s.push(x)[k] == y;
        if k < s.len() {
            assert(s[k] == y);
        }
    }
    if s.contains(y) {
        let k = choose|k: int| 0 <= k < s.len() && s[k] == y;
        assert(s.push(x)[k] == y);
    }
    if y == x {
        assert(s.push(x)[s.len() as int] == y);
    }
}

/// A sequence of `false` counts nothing.
pub proof fn lemma_count_zero(s: Seq<bool>, m: int)
    requires
        0 <= m <= s.len(),
        forall|j: int| 0 <= j < s.len() ==> !s[j],
    ensures
        count_true(s.take(m)) == 0,
    decreases m,
{
    if m > 0 {
        lemma_count_zero(s, m - 1);
        lemma_count_step(s, m - 1);
    }
}

/// The character views of a list of lists of strings.
pub open spec fn nested_views(r: Seq<Vec<String>>) -> Seq<Seq<Seq<char>>> {
    r.map_values(|v: Vec<String>| views(v@))
}

/// Some list of `lists` holds `x`.
pub open spec fn listed_in(lists: Seq<Seq<Seq<char>>>, x: Seq<char>) -> bool {
    exists|c: int| 0 <= c < lists.len() && lists[c].contains(x)
}

/// `l` followed by `q` without its first element; an empty side gives the
/// other.
pub open spec fn joined(l: Seq<Seq<char>>, q: Seq<Seq<char>>) -> Seq<Seq<char>> {
    if l.len() == 0 {
        q
    } else if q.len() == 0 {
        l
    } else {
        l + q.drop_first()
    }
}

/// Joining at `mid` loses nothing: when each left part ends at its only
/// `mid` and each right part starts at `mid`, the joined path gives both
/// parts back.
pub proof fn lemma_joined_injective(
    l1: Seq<Seq<char>>,
    r1: Seq<Seq<char>>,
    l2: Seq<Seq<char>>,
    r2: Seq<Seq<char>>,
    mid: Seq<char>,
)
    requires
        l1.len() > 0 && l1.no_duplicates() && l1[l1.len() - 1] == mid,
        l2.len() > 0 && l2.no_duplicates() && l2[l2.len() - 1] == mid,
        r1.len() > 0 && r1[0] == mid,
        r2.len() > 0 && r2[0] == mid,
        joined(l1, r1) == joined(l2, r2),
    ensures
        l1 == l2,
        r1 == r2,
{
    let p = joined(l1, r1);
    assert(p == l1 + r1.drop_first());
    assert(p == l2 + r2.drop_first());
    if l1.len() < l2.len() {
        assert(p[l1.len() - 1] == mid);
        assert(l2[l1.len() - 1] == mid);
        assert(false);
    }
    if l2.len() < l1.len() {
        assert(p[l2.len() - 1] == mid);
        assert(l1[l2.len() - 1] == mid);
        assert(false);
    }
    assert(l1 =~= p.take(l1.len() as int));
    assert(l2 =~= p.take(l2.len() as int));
    assert(r1.drop_first() =~= p.skip(l1.len() as int));
    assert(r2.drop_first() =~= p.skip(l2.len() as int));
    assert(r1 =~= seq![mid] + r1.drop_first());
    assert(r2 =~= seq![mid] + r2.drop_first());
}

/// A copy of a list of strings.
pub fn copy_string_vec(v: &Vec<String>) -> (r: Vec<String>)
    ensures
        views(r@) == views(v@),
{
    let mut r: Vec<String> = Vec::new();
    let mut i: usize = 0;
    while i < v.len()
        invariant
            i <= v.len(),
            views(r@) == views(v@).take(i as int),
        decreases v.len() - i,
    {
        let ghost r0 = r@;
        r.push(v[i].clone());
        assert(views(r@) =~= views(r0).push(v@[i as int]@));
        assert(views(v@).take(i + 1) =~= views(v@).take(i as int).push(v@[i as int]@));
        i = i + 1;
    }
    assert(views(v@).take(v.len() as int) =~= views(v@));
    r
}

/// A directed graph over vertices with distinct names; a vertex may hold a value.
pub struct DirectedGraph<T> {
    names: Vec<String>,
    succs: Vec<Vec<usize>>,
    preds: Vec<Vec<usize>>,
    values: Vec<Option<T>>,
}

impl<T> DirectedGraph<T> {
    /// The vertex names, in the order they were added.
    pub closed spec fn ids(&self) -> Seq<Seq<char>> {
        views(self.names@)
    }

    /// Whether there is an edge from vertex `i` to vertex `j`.
    pub closed spec fn edge(&self, i: int, j: int) -> bool {
        &&& 0 <= i < self.succs.len()
        &&& 0 <= j < self.succs.len()
        &&& self.succs@[i]@.contains(j as usize)
    }

    /// The value held by vertex `i`.
    pub closed spec fn value(&self, i: int) -> Option<T> {
        self.values@[i]
    }

    /// The representation is consistent.
    pub closed spec fn wf(&self) -> bool {
        let n = self.names.len();
        &&& self.succs.len() == n
        &&& self.preds.len() == n
        &&& self.values.len() == n
        &&& forall|i: int, j: int|
            0 <= i < n && 0 <= j < n && i != j ==> #[trigger] self.ids()[i] != #[trigger] self.ids()[j]
        &&& forall|i: int| 0 <= i < n ==> (#[trigger] self.succs@[i]@).no_duplicates()
        &&& forall|i: int| 0 <= i < n ==> (#[trigger] self.preds@[i]@).no_duplicates()
        &&& forall|i: int, k: int|
            0 <= i < n && 0 <= k < self.succs@[i]@.len() ==> #[trigger] self.succs@[i]@[k] < n
        &&& forall|i: int, k: int|
            0 <= i < n && 0 <= k < self.preds@[i]@.len() ==> #[trigger] self.preds@[i]@[k] < n
        &&& forall|i: int, j: int|
            0 <= i < n && 0 <= j < n ==> (self.succs@[i]@.contains(j as usize)
                <==> self.preds@[j]@.contains(i as usize))
    }

    /// The value of the vertex named `x`, if there is one.
    pub open spec fn value_of(&self, x: Seq<char>) -> Option<T> {
        if exists|i: int| 0 <= i < self.ids().len() && self.ids()[i] == x {
            self.value(choose|i: int| 0 <= i < self.ids().len() && self.ids()[i] == x)
        } else {
            None
        }
    }

    /// Distinct positions hold distinct names.
    pub proof fn lemma_ids_distinct(&self, i: int, j: int)
        requires
            self.wf(),
            0 <= i < self.ids().len(),
            0 <= j < self.ids().len(),
            self.ids()[i] == self.ids()[j],
        ensures
            i == j,
    {
    }

    /// An edge joins two vertices of the graph.
    pub proof fn lemma_edge_in_range(&self, i: int, j: int)
        requires
            self.wf(),
            self.edge(i, j),
        ensures
            0 <= i < self.ids().len(),
            0 <= j < self.ids().len(),
    {
    }

    proof fn lemma_same_peeled(&self, other: &Self, k: nat)
        requires
            forall|i: int, j: int| #[trigger] self.edge(i, j) == other.edge(i, j),
        ensures
            forall|v: int| #[trigger] self.peeled(v, k) == other.peeled(v, k),
        decreases k,
    {
        if k > 0 {
            self.lemma_same_peeled(other, (k - 1) as nat);
            assert forall|v: int| #[trigger] self.peeled(v, k) == other.peeled(v, k) by {
                if self.peeled(v, k) {
                    assert forall|u: int| #[trigger] other.edge(u, v) implies other.peeled(u, (k - 1) as nat) by {
                        assert(self.edge(u, v));
                        assert(self.peeled(u, (k - 1) as nat));
                    }
                }
                if other.peeled(v, k) {
                    assert forall|u: int| #[trigger] self.edge(u, v) implies self.peeled(u, (k - 1) as nat) by {
                        assert(other.edge(u, v));
                        assert(other.peeled(u, (k - 1) as nat));
                        assert(self.peeled(u, (k - 1) as nat) == other.peeled(u, (k - 1) as nat));
                    }
                }
            }
        }
    }

    /// Graphs with the same vertex names and the same edges have the same
    /// named edges and the same vertices on or downstream of cycles.
    pub proof fn lemma_same_shape(&self, other: &Self)
        requires
            self.ids() == other.ids(),
            forall|i: int, j: int| #[trigger] self.edge(i, j) == other.edge(i, j),
        ensures
            forall|v: int| #[trigger] self.unpeelable(v) == other.unpeelable(v),
            forall|x: Seq<char>, y: Seq<char>| #[trigger] self.id_edge(x, y) == other.id_edge(x, y),
    {
        assert forall|v: int| #[trigger] self.unpeelable(v) == other.unpeelable(v) by {
            if self.unpeelable(v) {
                assert forall|k: nat| !#[trigger] other.peeled(v, k) by {
                    self.lemma_same_peeled(other, k);
                    assert(!self.peeled(v, k));
                }
            }
            if other.unpeelable(v) {
                assert forall|k: nat| !#[trigger] self.peeled(v, k) by {
                    self.lemma_same_peeled(other, k);
                    assert(!other.peeled(v, k));
                }
            }
        }
        assert forall|x: Seq<char>, y: Seq<char>| #[trigger] self.id_edge(x, y) == other.id_edge(x, y) by {
            if self.id_edge(x, y) {
                let (i, j) = choose|i: int, j: int| #[trigger] self.named_pair(i, j, x, y) && self.edge(i, j);
                assert(other.named_pair(i, j, x, y) && other.edge(i, j));
            }
            if other.id_edge(x, y) {
                let (i, j) = choose|i: int, j: int| #[trigger] other.named_pair(i, j, x, y) && other.edge(i, j);
                assert(self.named_pair(i, j, x, y) && self.edge(i, j));
            }
        }
    }

    proof fn lemma_same_linked(&self, other: &Self, k: nat)
        requires
            forall|i: int, j: int| #[trigger] self.edge(i, j) == other.edge(i, j),
        ensures
            forall|s: int, v: int| #[trigger] self.linked(s, v, k) == other.linked(s, v, k),
        decreases k,
    {
        if k > 0 {
            self.lemma_same_linked(other, (k - 1) as nat);
            assert forall|s: int, v: int| #[trigger] self.linked(s, v, k) == other.linked(s, v, k) by {
                if self.linked(s, v, k) && v != s {
                    let u = choose|u: int| #[trigger] self.adjacent(u, v) && self.linked(s, u, (k - 1) as nat);
                    assert(other.adjacent(u, v) && other.linked(s, u, (k - 1) as nat));
                }
                if other.linked(s, v, k) && v != s {
                    let u = choose|u: int| #[trigger] other.adjacent(u, v) && other.linked(s, u, (k - 1) as nat);
                    assert(self.linked(s, u, (k - 1) as nat) == other.linked(s, u, (k - 1) as nat));
                    assert(self.adjacent(u, v) && self.linked(s, u, (k - 1) as nat));
                }
            }
        }
    }

    /// Graphs with the same vertex names and the same edges have the same
    /// sources, sinks, components and paths.
    pub proof fn lemma_same_shape_paths(&self, other: &Self)
        requires
            self.ids() == other.ids(),
            forall|i: int, j: int| #[trigger] self.edge(i, j) == other.edge(i, j),
        ensures
            forall|v: int| #[trigger] self.no_preds(v) == other.no_preds(v),
            forall|v: int| #[trigger] self.no_succs(v) == other.no_succs(v),
            forall|s: int, v: int| #[trigger] self.connected(s, v) == other.connected(s, v),
            forall|s: int| #[trigger] self.component_ids(s) == other.component_ids(s),
            forall|m: int| #[trigger] self.components_upto(m) == other.components_upto(m),
            forall|x: Seq<char>, y: Seq<char>| #[trigger] self.id_edge(x, y) == other.id_edge(x, y),
            forall|q: Seq<Seq<char>>, a: Seq<char>, b: Seq<char>| #[trigger] self.is_id_path(q, a, b) == other.is_id_path(q, a, b),
            forall|p: Seq<Seq<char>>, mid: Seq<char>| #[trigger] self.is_pipeline(p, mid) == other.is_pipeline(p, mid),
    {
        self.lemma_same_shape(other);
        assert forall|v: int| #[trigger] self.no_preds(v) == other.no_preds(v) by {
            if !self.no_preds(v) {
                let u = choose|u: int| #[trigger] self.edge(u, v);
                assert(other.edge(u, v));
            }
            if !other.no_preds(v) {
                let u = choose|u: int| #[trigger] other.edge(u, v);
                assert(self.edge(u, v));
            }
        }
        assert forall|v: int| #[trigger] self.no_succs(v) == other.no_succs(v) by {
            if !self.no_succs(v) {
                let u = choose|u: int| #[trigger] self.edge(v, u);
                assert(other.edge(v, u));
            }
            if !other.no_succs(v) {
                let u = choose|u: int| #[trigger] other.edge(v, u);
                assert(self.edge(v, u));
            }
        }
        assert forall|s: int, v: int| #[trigger] self.connected(s, v) == other.connected(s, v) by {
            if self.connected(s, v) {
                let k = choose|k: nat| #[trigger] self.linked(s, v, k);
                self.lemma_same_linked(other, k);
                assert(other.linked(s, v, k));
            }
            if other.connected(s, v) {
                let k = choose|k: nat| #[trigger] other.linked(s, v, k);
                self.lemma_same_linked(other, k);
                assert(self.linked(s, v, k));
            }
        }
        assert forall|s: int| #[trigger] self.component_ids(s) == other.component_ids(s) by {
            assert((|j: int| self.connected(s, j)) =~= (|j: int| other.connected(s, j)));
        }
        assert forall|m: int| #[trigger] self.components_upto(m) == other.components_upto(m) by {
            self.lemma_same_components_upto(other, m);
        }
        assert forall|q: Seq<Seq<char>>, a: Seq<char>, b: Seq<char>| #[trigger] self.is_id_path(q, a, b) == other.is_id_path(q, a, b) by {
            if self.is_id_path(q, a, b) {
                assert forall|k: int| 0 <= k < q.len() - 1 implies #[trigger] other.id_edge(q[k], q[k + 1]) by {
                    assert(self.id_edge(q[k], q[k + 1]));
                }
            }
            if other.is_id_path(q, a, b) {
                assert forall|k: int| 0 <= k < q.len() - 1 implies #[trigger] self.id_edge(q[k], q[k + 1]) by {
                    assert(other.id_edge(q[k], q[k + 1]));
                }
            }
        }
        assert forall|p: Seq<Seq<char>>, mid: Seq<char>| #[trigger] self.is_pipeline(p, mid) == other.is_pipeline(p, mid) by {
            if p.len() > 0 {
                let a = p[0];
                let b = p[p.len() - 1];
                if self.via(p, a, mid, b) {
                    let k = choose|k: int| #[trigger] self.split_ok(p, k, a, mid, b);
                    assert(self.is_id_path(p.take(k + 1), a, mid));
                    assert(self.is_id_path(p.skip(k), mid, b));
                    assert(other.split_ok(p, k, a, mid, b));
                }
                if other.via(p, a, mid, b) {
                    let k = choose|k: int| #[trigger] other.split_ok(p, k, a, mid, b);
                    assert(other.is_id_path(p.take(k + 1), a, mid));
                    assert(other.is_id_path(p.skip(k), mid, b));
                    assert(self.split_ok(p, k, a, mid, b));
                }
                if self.is_source_id(a) {
                    let i = choose|i: int| 0 <= i < self.ids().len() && self.ids()[i] == a && self.no_preds(i);
                    assert(other.no_preds(i));
                }
                if other.is_source_id(a) {
                    let i = choose|i: int| 0 <= i < other.ids().len() && other.ids()[i] == a && other.no_preds(i);
                    assert(self.no_preds(i));
                }
                if self.is_sink_id(b) {
                    let i = choose|i: int| 0 <= i < self.ids().len() && self.ids()[i] == b && self.no_succs(i);
                    assert(other.no_succs(i));
                }
                if other.is_sink_id(b) {
                    let i = choose|i: int| 0 <= i < other.ids().len() && other.ids()[i] == b && other.no_succs(i);
                    assert(self.no_succs(i));
                }
            }
        }
    }

    proof fn lemma_same_components_upto(&self, other: &Self, m: int)
        requires
            self.ids() == other.ids(),
            forall|s: int, v: int| #[trigger] self.connected(s, v) == other.connected(s, v),
        ensures
            self.components_upto(m) == other.components_upto(m),
        decreases m,
    {
        if m > 0 {
            self.lemma_same_components_upto(other, m - 1);
            assert(self.first_in_component(m - 1) == other.first_in_component(m - 1)) by {
                if !self.first_in_component(m - 1) {
                    let j = choose|j: int| 0 <= j < m - 1 && #[trigger] self.connected(j, m - 1);
                    assert(other.connected(j, m - 1));
                }
                if !other.first_in_component(m - 1) {
                    let j = choose|j: int| 0 <= j < m - 1 && #[trigger] other.connected(j, m - 1);
                    assert(self.connected(j, m - 1));
                }
            }
            assert((|j: int| self.connected(m - 1, j)) =~= (|j: int| other.connected(m - 1, j)));
        }
    }

    /// Vertex `v` has no incoming edge.
    pub open spec fn no_preds(&self, v: int) -> bool {
        forall|u: int| !#[trigger] self.edge(u, v)
    }

    /// Vertex `v` has no outgoing edge.
    pub open spec fn no_succs(&self, v: int) -> bool {
        forall|u: int| !#[trigger] self.edge(v, u)
    }

    /// An empty graph.
    pub fn new() -> (g: Self)
        ensures
            g.wf(),
            g.ids() == Seq::<Seq<char>>::empty(),
    {
        let g = DirectedGraph { names: Vec::new(), succs: Vec::new(), preds: Vec::new(), values: Vec::new() };
        assert(g.ids() =~= Seq::<Seq<char>>::empty());
        g
    }

    /// The number of vertices.
    pub fn len(&self) -> (n: usize)
        requires
            self.wf(),
        ensures
            n == self.ids().len(),
    {
        self.names.len()
    }

    /// The position of the vertex named `id`.
    pub fn index_of(&self, id: &str) -> (r: Option<usize>)
        requires
            self.wf(),
        ensures
            match r {
                Some(i) => i < self.ids().len() && self.ids()[i as int] == id@,
                None => !self.ids().contains(id@),
            },
    {
        let mut i: usize = 0;
        while i < self.names.len()
            invariant
                self.wf(),
                i <= self.names.len(),
                forall|j: int| 0 <= j < i ==> self.ids()[j] != id@,
            decreases self.names.len() - i,
        {
            if str_eq(self.names[i].as_str(), id) {
                return Some(i);
            }
            i = i + 1;
        }
        proof {
            if self.ids().contains(id@) {
                let j = choose|j: int| 0 <= j < self.ids().len() && self.ids()[j] == id@;
                assert(self.ids()[j] == id@);
            }
        }
        None
    }

    /// The name of vertex `i`.
    pub fn name(&self, i: usize) -> (r: &String)
        requires
            self.wf(),
            i < self.ids().len(),
        ensures
            r@ == self.ids()[i as int],
    {
        &self.names[i]
    }

    /// Whether a vertex is named `id`.
    pub fn has_vertex(&self, id: &str) -> (r: bool)
        requires
            self.wf(),
        ensures
            r == self.ids().contains(id@),
    {
        self.index_of(id).is_some()
    }

    fn add_vertex(&mut self, id: String)
        requires
            old(self).wf(),
            !old(self).ids().contains(id@),
        ensures
            final(self).wf(),
            final(self).ids() == old(self).ids().push(id@),
            forall|i: int, j: int| #[trigger] final(self).edge(i, j) == old(self).edge(i, j),
            forall|i: int| 0 <= i < old(self).ids().len() ==> #[trigger] final(self).value(i) == old(self).value(i),
            final(self).value(old(self).ids().len() as int) is None,
    {
        let ghost old_ids = self.ids();
        self.names.push(id);
        self.succs.push(Vec::new());
        self.preds.push(Vec::new());
        self.values.push(None);
        proof {
            assert(self.ids() =~= old_ids.push(id@));
            let n = self.names.len() as int;
            assert forall|i: int, j: int| 0 <= i < n && 0 <= j < n && i != j implies #[trigger] self.ids()[i]
                != #[trigger] self.ids()[j] by {
                if i < n - 1 && j < n - 1 {
                    assert(old_ids[i] != old_ids[j]);
                } else if i == n - 1 {
                    assert(old_ids.contains(self.ids()[j]) ==> old_ids[j] == self.ids()[j]);
                    assert(old_ids[j] == self.ids()[j]);
                } else {
                    assert(old_ids[i] == self.ids()[i]);
                }
            }
            assert forall|i: int, j: int| 0 <= i < n && 0 <= j < n implies (self.succs@[i]@.contains(j as usize)
                <==> self.preds@[j]@.contains(i as usize)) by {
                if i == n - 1 {
                    assert(self.succs@[i]@ =~= Seq::<usize>::empty());
                    if j < n - 1 {
                        assert(!self.preds@[j]@.contains(i as usize));
                    }
                }
                if j == n - 1 {
                    assert(self.preds@[j]@ =~= Seq::<usize>::empty());
                    if i < n - 1 {
                        assert(!self.succs@[i]@.contains(j as usize));
                    }
                }
            }
        }
    }

    /// Adds a vertex named `id` unless one already has that name.
    pub fn add_vertex_if_not_exists(&mut self, id: String)
        requires
            old(self).wf(),
        ensures
            final(self).wf(),
            final(self).ids() == if old(self).ids().contains(id@) {
                old(self).ids()
            } else {
                old(self).ids().push(id@)
            },
            forall|i: int, j: int| #[trigger] final(self).edge(i, j) == old(self).edge(i, j),
            forall|i: int| 0 <= i < old(self).ids().len() ==> #[trigger] final(self).value(i) == old(self).value(i),
            !old(self).ids().contains(id@) ==> final(self).value(old(self).ids().len() as int) is None,
    {
        if !self.has_vertex(id.as_str()) {
            self.add_vertex(id)
        }
    }
    /// Whether vertices `i` and `j` are named `src` and `dst`.
    pub open spec fn named_pair(&self, i: int, j: int, src: Seq<char>, dst: Seq<char>) -> bool {
        &&& 0 <= i < self.ids().len()
        &&& 0 <= j < self.ids().len()
        &&& self.ids()[i] == src
        &&& self.ids()[j] == dst
    }

    fn contains_index(v: &Vec<usize>, x: usize) -> (r: bool)
        ensures
            r == v@.contains(x),
    {
        let mut k: usize = 0;
        while k < v.len()
            invariant
                k <= v.len(),
                forall|m: int| 0 <= m < k ==> v@[m] != x,
            decreases v.len() - k,
        {
            if v[k] == x {
                return true;
            }
            k = k + 1;
        }
        false
    }

    /// Adds an edge from the vertex named `src` to the one named `dst`, when
    /// both exist; tells whether the edge is new.
    pub fn add_edge(&mut self, src: &str, dst: &str) -> (r: bool)
        requires
            old(self).wf(),
        ensures
            final(self).wf(),
            final(self).ids() == old(self).ids(),
            forall|i: int| #[trigger] final(self).value(i) == old(self).value(i),
            forall|i: int, j: int| #[trigger] final(self).edge(i, j)
                == (old(self).edge(i, j) || old(self).named_pair(i, j, src@, dst@)),
            r == exists|i: int, j: int| #[trigger] old(self).named_pair(i, j, src@, dst@) && !old(self).edge(i, j),
    {
        let di = match self.index_of(dst) {
            Some(di) => di,
            None => {
                assert(forall|i: int, j: int| !#[trigger] old(self).named_pair(i, j, src@, dst@));
                return false;
            },
        };
        let si = match self.index_of(src) {
            Some(si) => si,
            None => {
                assert(forall|i: int, j: int| !#[trigger] old(self).named_pair(i, j, src@, dst@));
                return false;
            },
        };
        assert(forall|i: int, j: int| #[trigger] self.named_pair(i, j, src@, dst@) ==> i == si && j == di);
        if Self::contains_index(&self.succs[si], di) {
            assert(self.named_pair(si as int, di as int, src@, dst@));
            return false;
        }
        let ghost old_succs = self.succs@;
        let ghost old_preds = self.preds@;
        let ghost n = self.names.len() as int;
        proof {
            assert(!self.preds@[di as int]@.contains(si));
        }
        self.succs[si].push(di);
        self.preds[di].push(si);
        proof {
            assert(self.ids() == old(self).ids());
            assert(self.succs@[si as int]@ == old_succs[si as int]@.push(di));
            assert(self.preds@[di as int]@ == old_preds[di as int]@.push(si));
            assert forall|i: int| 0 <= i < n implies (#[trigger] self.succs@[i]@).no_duplicates() by {
                if i != si {
                    assert(self.succs@[i] == old_succs[i]);
                }
            }
            assert forall|i: int| 0 <= i < n implies (#[trigger] self.preds@[i]@).no_duplicates() by {
                if i != di {
                    assert(self.preds@[i] == old_preds[i]);
                }
            }
            assert forall|i: int, k: int| 0 <= i < n && 0 <= k < self.succs@[i]@.len() implies #[trigger] self.succs@[i]@[k]
                < n by {
                if i != si {
                    assert(self.succs@[i] == old_succs[i]);
                } else if k < old_succs[i]@.len() {
                    assert(self.succs@[i]@[k] == old_succs[i]@[k]);
                }
            }
            assert forall|i: int, k: int| 0 <= i < n && 0 <= k < self.preds@[i]@.len() implies #[trigger] self.preds@[i]@[k]
                < n by {
                if i != di {
                    assert(self.preds@[i] == old_preds[i]);
                } else if k < old_preds[i]@.len() {
                    assert(self.preds@[i]@[k] == old_preds[i]@[k]);
                }
            }
            assert forall|i: int, j: int| 0 <= i < n && 0 <= j < n implies (self.succs@[i]@.contains(j as usize)
                <==> self.preds@[j]@.contains(i as usize)) by {
                if i != si {
                    assert(self.succs@[i] == old_succs[i]);
                }
                if j != di {
                    assert(self.preds@[j] == old_preds[j]);
                }
                assert(old_succs[i]@.contains(j as usize) <==> old_preds[j]@.contains(i as usize));
                if i == si {
                    lemma_push_contains(old_succs[i]@, di, j as usize);
                }
                if j == di {
                    lemma_push_contains(old_preds[j]@, si, i as usize);
                }
            }
            assert forall|i: int, j: int| #[trigger] self.edge(i, j)
                == (old(self).edge(i, j) || old(self).named_pair(i, j, src@, dst@)) by {
                if 0 <= i < n && 0 <= j < n {
                    if i != si {
                        assert(self.succs@[i] == old_succs[i]);
                    } else {
                        lemma_push_contains(old_succs[i]@, di, j as usize);
                    }
                }
            }
            assert(old(self).named_pair(si as int, di as int, src@, dst@) && !old(self).edge(si as int, di as int));
        }
        true
    }

    /// Gives the vertex named `vid` the value `value`; tells whether it exists.
    pub fn set_value(&mut self, vid: &str, value: T) -> (r: bool)
        requires
            old(self).wf(),
        ensures
            final(self).wf(),
            final(self).ids() == old(self).ids(),
            forall|i: int, j: int| #[trigger] final(self).edge(i, j) == old(self).edge(i, j),
            r == old(self).ids().contains(vid@),
            forall|i: int| 0 <= i < old(self).ids().len() ==> #[trigger] final(self).value(i) == if old(self).ids()[i]
                == vid@ {
                Some(value)
            } else {
                old(self).value(i)
            },
    {
        match self.index_of(vid) {
            Some(i) => {
                self.values.set(i, Some(value));
                assert(forall|j: int| 0 <= j < self.names.len() && self.ids()[j] == vid@ ==> j == i);
                true
            },
            None => false,
        }
    }

    /// The value of the vertex named `vid`, if it exists and holds one.
    pub fn get_value(&self, vid: &str) -> (r: Option<&T>)
        requires
            self.wf(),
        ensures
            match r {
                Some(v) => exists|i: int| 0 <= i < self.ids().len() && self.ids()[i] == vid@ && self.value(i) == Some(*v),
                None => forall|i: int| 0 <= i < self.ids().len() && self.ids()[i] == vid@ ==> self.value(i) is None,
            },
    {
        match self.index_of(vid) {
            Some(i) => {
                assert(forall|j: int| 0 <= j < self.names.len() && self.ids()[j] == vid@ ==> j == i);
                match &self.values[i] {
                    Some(v) => {
                        assert(self.ids()[i as int] == vid@ && self.value(i as int) == Some(*v));
                        Some(v)
                    },
                    None => None,
                }
            },
            None => None,
        }
    }

    /// Whether the vertex named `vid` exists and has no incoming edge.
    pub fn is_source_vertex(&self, vid: &str) -> (r: bool)
        requires
            self.wf(),
        ensures
            r == exists|i: int| 0 <= i < self.ids().len() && self.ids()[i] == vid@ && self.no_preds(i),
    {
        match self.index_of(vid) {
            Some(i) => {
                assert(forall|j: int| 0 <= j < self.names.len() && self.ids()[j] == vid@ ==> j == i);
                assert(self.ids()[i as int] == vid@);
                self.no_preds_at(i)
            },
            None => false,
        }
    }

    /// Whether the vertex named `vid` exists and has no outgoing edge.
    pub fn is_sink_vertex(&self, vid: &str) -> (r: bool)
        requires
            self.wf(),
        ensures
            r == exists|i: int| 0 <= i < self.ids().len() && self.ids()[i] == vid@ && self.no_succs(i),
    {
        match self.index_of(vid) {
            Some(i) => {
                assert(forall|j: int| 0 <= j < self.names.len() && self.ids()[j] == vid@ ==> j == i);
                assert(self.ids()[i as int] == vid@);
                self.no_succs_at(i)
            },
            None => false,
        }
    }

    fn no_preds_at(&self, v: usize) -> (r: bool)
        requires
            self.wf(),
            v < self.ids().len(),
        ensures
            r == self.no_preds(v as int),
    {
        let r = self.preds[v].len() == 0;
        proof {
            if r {
                assert forall|u: int| !#[trigger] self.edge(u, v as int) by {
                    if self.edge(u, v as int) {
                        assert(self.preds@[v as int]@.contains(u as usize));
                    }
                }
            } else {
                let u = self.preds@[v as int]@[0];
                assert(self.preds@[v as int]@.contains(u));
                assert(self.edge(u as int, v as int));
            }
        }
        r
    }

    fn no_succs_at(&self, v: usize) -> (r: bool)
        requires
            self.wf(),
            v < self.ids().len(),
        ensures
            r == self.no_succs(v as int),
    {
        let r = self.succs[v].len() == 0;
        proof {
            if !r {
                let u = self.succs@[v as int]@[0];
                assert(self.succs@[v as int]@.contains(u));
                assert(self.edge(v as int, u as int));
            }
        }
        r
    }

    /// The vertices without incoming edges, in order.
    pub fn find_source_vertices(&self) -> (r: Vec<String>)
        requires
            self.wf(),
        ensures
            views(r@) == pick(self.ids(), |i: int| self.no_preds(i)),
    {
        let ghost keep = |i: int| self.no_preds(i);
        let mut r: Vec<String> = Vec::new();
        let mut i: usize = 0;
        while i < self.names.len()
            invariant
                self.wf(),
                i <= self.names.len(),
                keep == (|i: int| self.no_preds(i)),
                views(r@) == pick(self.ids().take(i as int), keep),
            decreases self.names.len() - i,
        {
            proof {
                lemma_pick_step(self.ids(), keep, i as int);
            }
            if self.no_preds_at(i) {
                r.push(self.names[i].clone());
                assert(views(r@) =~= pick(self.ids().take(i as int), keep).push(self.ids()[i as int]));
            }
            i = i + 1;
        }
        assert(self.ids().take(self.names.len() as int) =~= self.ids());
        r
    }

    /// The vertices without outgoing edges, in order.
    pub fn find_sink_vertices(&self) -> (r: Vec<String>)
        requires
            self.wf(),
        ensures
            views(r@) == pick(self.ids(), |i: int| self.no_succs(i)),
    {
        let ghost keep = |i: int| self.no_succs(i);
        let mut r: Vec<String> = Vec::new();
        let mut i: usize = 0;
        while i < self.names.len()
            invariant
                self.wf(),
                i <= self.names.len(),
                keep == (|i: int| self.no_succs(i)),
                views(r@) == pick(self.ids().take(i as int), keep),
            decreases self.names.len() - i,
        {
            proof {
                lemma_pick_step(self.ids(), keep, i as int);
            }
            if self.no_succs_at(i) {
                r.push(self.names[i].clone());
                assert(views(r@) =~= pick(self.ids().take(i as int), keep).push(self.ids()[i as int]));
            }
            i = i + 1;
        }
        assert(self.ids().take(self.names.len() as int) =~= self.ids());
        r
    }
    /// Vertex `v` is peeled within `k` rounds: every vertex with an edge into it
    /// is peeled within `k - 1` rounds (so a vertex without incoming edges is
    /// peeled in the first round).
    pub closed spec fn peeled(&self, v: int, k: nat) -> bool
        decreases k,
    {
        k > 0 && forall|u: int| #[trigger] self.edge(u, v) ==> self.peeled(u, (k - 1) as nat)
    }

    /// Vertex `v` is never peeled: it lies on a cycle or downstream of one.
    pub closed spec fn unpeelable(&self, v: int) -> bool {
        forall|k: nat| !#[trigger] self.peeled(v, k)
    }

    proof fn lemma_peeled_mono(&self, v: int, k: nat, m: nat)
        requires
            k <= m,
            self.peeled(v, k),
        ensures
            self.peeled(v, m),
        decreases k,
    {
        assert forall|u: int| #[trigger] self.edge(u, v) implies self.peeled(u, (m - 1) as nat) by {
            self.lemma_peeled_mono(u, (k - 1) as nat, (m - 1) as nat);
        }
    }

    proof fn lemma_peeled_stable(&self, k0: nat, m: nat)
        requires
            self.wf(),
            k0 <= m,
            forall|v: int| 0 <= v < self.ids().len() ==> #[trigger] self.peeled(v, k0 + 1) == self.peeled(v, k0),
        ensures
            forall|v: int| 0 <= v < self.ids().len() ==> #[trigger] self.peeled(v, m) == self.peeled(v, k0),
        decreases m,
    {
        if m > k0 {
            self.lemma_peeled_stable(k0, (m - 1) as nat);
            assert forall|v: int| 0 <= v < self.ids().len() implies #[trigger] self.peeled(v, m) == self.peeled(v, k0) by {
                assert forall|u: int| #[trigger] self.edge(u, v) implies (self.peeled(u, (m - 1) as nat)
                    == self.peeled(u, k0)) by {
                    assert(0 <= u < self.ids().len());
                }
                assert(self.peeled(v, m) == self.peeled(v, k0 + 1));
            }
        }
    }

    proof fn lemma_peeled_together(&self, s: Seq<usize>) -> (kk: nat)
        requires
            forall|j: int| 0 <= j < s.len() ==> !self.unpeelable((#[trigger] s[j]) as int),
        ensures
            forall|j: int| 0 <= j < s.len() ==> #[trigger] self.peeled(s[j] as int, kk),
        decreases s.len(),
    {
        if s.len() == 0 {
            0
        } else {
            let k1 = self.lemma_peeled_together(s.drop_last());
            assert(!self.unpeelable(s[s.len() - 1] as int));
            let k2 = choose|k: nat| #[trigger] self.peeled(s[s.len() - 1] as int, k);
            let kk: nat = if k1 <= k2 {
                k2
            } else {
                k1
            };
            assert forall|j: int| 0 <= j < s.len() implies #[trigger] self.peeled(s[j] as int, kk) by {
                if j < s.len() - 1 {
                    assert(self.peeled(s.drop_last()[j] as int, k1));
                    self.lemma_peeled_mono(s[j] as int, k1, kk);
                } else {
                    self.lemma_peeled_mono(s[j] as int, k2, kk);
                }
            }
            kk
        }
    }

    /// Every vertex that `find_cycle` reports has an incoming edge from another
    /// reported vertex: the reported vertices never run out of upstreams.
    pub proof fn lemma_cycle_vertex_has_cycle_pred(&self, v: int)
        requires
            self.wf(),
            0 <= v < self.ids().len(),
            self.unpeelable(v),
        ensures
            exists|u: int| #[trigger] self.edge(u, v) && self.unpeelable(u),
    {
        if forall|u: int| #[trigger] self.edge(u, v) ==> !self.unpeelable(u) {
            let s = self.preds@[v]@;
            assert forall|j: int| 0 <= j < s.len() implies !self.unpeelable((#[trigger] s[j]) as int) by {
                assert(s.contains(s[j]));
                assert(self.succs@[s[j] as int]@.contains(v as usize));
                assert(self.edge(s[j] as int, v));
            }
            let kk = self.lemma_peeled_together(s);
            assert forall|u: int| #[trigger] self.edge(u, v) implies self.peeled(u, kk) by {
                assert(s.contains(u as usize));
                let j = choose|j: int| 0 <= j < s.len() && s[j] == u as usize;
                assert(self.peeled(s[j] as int, kk));
            }
            assert(self.peeled(v, kk + 1));
        }
    }

    proof fn lemma_closed_not_peeled(&self, c: Set<int>, k: nat)
        requires
            forall|x: int| c.contains(x) ==> exists|u: int| #[trigger] c.contains(u) && self.edge(u, x),
        ensures
            forall|x: int| c.contains(x) ==> !#[trigger] self.peeled(x, k),
        decreases k,
    {
        if k > 0 {
            self.lemma_closed_not_peeled(c, (k - 1) as nat);
            assert forall|x: int| c.contains(x) implies !#[trigger] self.peeled(x, k) by {
                let u = choose|u: int| #[trigger] c.contains(u) && self.edge(u, x);
                assert(!self.peeled(u, (k - 1) as nat));
            }
        }
    }

    /// Every set of vertices in which each member has an incoming edge from
    /// another member (a cycle, say) is reported whole by `find_cycle`.
    pub proof fn lemma_cycle_sets_reported(&self, c: Set<int>)
        requires
            forall|x: int| c.contains(x) ==> exists|u: int| #[trigger] c.contains(u) && self.edge(u, x),
        ensures
            forall|x: int| c.contains(x) ==> #[trigger] self.unpeelable(x),
    {
        assert forall|x: int| c.contains(x) implies #[trigger] self.unpeelable(x) by {
            assert forall|k: nat| !#[trigger] self.peeled(x, k) by {
                self.lemma_closed_not_peeled(c, k);
            }
        }
    }

    fn all_preds_removed(&self, v: usize, removed: &Vec<bool>, Ghost(k): Ghost<nat>) -> (r: bool)
        requires
            self.wf(),
            v < self.ids().len(),
            removed.len() == self.ids().len(),
            forall|j: int| 0 <= j < removed.len() ==> removed@[j] == #[trigger] self.peeled(j, k),
        ensures
            r == self.peeled(v as int, k + 1),
    {
        let ps = &self.preds[v];
        let mut t: usize = 0;
        while t < ps.len()
            invariant
                self.wf(),
                v < self.ids().len(),
                removed.len() == self.ids().len(),
                forall|j: int| 0 <= j < removed.len() ==> removed@[j] == #[trigger] self.peeled(j, k),
                ps == &self.preds@[v as int],
                t <= ps.len(),
                forall|m: int| 0 <= m < t ==> #[trigger] self.peeled(ps@[m] as int, k),
            decreases ps.len() - t,
        {
            let u = ps[t];
            if !removed[u] {
                proof {
                    assert(ps@.contains(u));
                    assert(u < self.ids().len());
                    assert(self.edge(u as int, v as int));
                    assert(removed@[u as int] == self.peeled(u as int, k));
                    assert(!self.peeled(u as int, k));
                }
                return false;
            }
            t = t + 1;
        }
        proof {
            assert forall|u: int| #[trigger] self.edge(u, v as int) implies self.peeled(u, k) by {
                assert(ps@.contains(u as usize));
                let m = choose|m: int| 0 <= m < ps.len() && ps@[m] == u as usize;
                assert(self.peeled(ps@[m] as int, k));
            }
        }
        true
    }

    /// The vertices that lie on a cycle or downstream of one, in order: what
    /// is left after repeatedly removing vertices without incoming edges.
    pub fn find_cycle(&self) -> (r: Vec<String>)
        requires
            self.wf(),
        ensures
            views(r@) == pick(self.ids(), |i: int| self.unpeelable(i)),
    {
        let n = self.names.len();
        let mut removed: Vec<bool> = Vec::new();
        while removed.len() < n
            invariant
                removed.len() <= n,
                forall|j: int| 0 <= j < removed.len() ==> !removed@[j],
            decreases n - removed.len(),
        {
            removed.push(false);
        }
        proof {
            assert(removed@ =~= removed@.take(n as int));
            assert forall|m: int| 0 <= m <= n implies count_true(#[trigger] removed@.take(m)) == 0 by {
                assert forall|mm: int| 0 <= mm <= m implies count_true(#[trigger] removed@.take(mm)) == 0 by {
                    lemma_count_zero(removed@, mm);
                }
            }
        }
        let mut cnt: usize = 0;
        let ghost mut k: nat = 0;
        loop
            invariant
                self.wf(),
                n == self.ids().len(),
                removed.len() == n,
                forall|j: int| 0 <= j < n ==> removed@[j] == #[trigger] self.peeled(j, k),
                cnt == count_true(removed@),
                cnt <= n,
            ensures
                forall|j: int| 0 <= j < n ==> #[trigger] self.peeled(j, k + 1) == self.peeled(j, k),
            decreases n - cnt,
        {
            let mut next: Vec<bool> = Vec::new();
            let mut flips: usize = 0;
            let mut v: usize = 0;
            while v < n
                invariant
                    self.wf(),
                    n == self.ids().len(),
                    removed.len() == n,
                    forall|j: int| 0 <= j < n ==> removed@[j] == #[trigger] self.peeled(j, k),
                    v <= n,
                    next.len() == v,
                    forall|j: int| 0 <= j < v ==> next@[j] == #[trigger] self.peeled(j, k + 1),
                    count_true(next@) == count_true(removed@.take(v as int)) + flips,
                    flips <= v,
                    flips == 0 ==> forall|j: int| 0 <= j < v ==> next@[j] == removed@[j],
                decreases n - v,
            {
                let all = self.all_preds_removed(v, &removed, Ghost(k));
                proof {
                    if removed@[v as int] {
                        self.lemma_peeled_mono(v as int, k, k + 1);
                    }
                    lemma_count_step(removed@, v as int);
                    assert(next@.push(all).drop_last() =~= next@);
                }
                next.push(all);
                if all && !removed[v] {
                    flips = flips + 1;
                }
                v = v + 1;
            }
            proof {
                assert(removed@.take(n as int) =~= removed@);
                lemma_count_bound(next@);
            }
            if flips == 0 {
                proof {
                    assert forall|j: int| 0 <= j < n implies #[trigger] self.peeled(j, k + 1) == self.peeled(j, k) by {
                        assert(next@[j] == removed@[j]);
                    }
                }
                break;
            }
            removed = next;
            cnt = cnt + flips;
            proof {
                k = k + 1;
            }
        }
        proof {
            assert forall|i: int| 0 <= i < n implies #[trigger] self.unpeelable(i) == !removed@[i] by {
                if !removed@[i] {
                    assert forall|m: nat| !#[trigger] self.peeled(i, m) by {
                        if m <= k {
                            if self.peeled(i, m) {
                                self.lemma_peeled_mono(i, m, k);
                            }
                        } else {
                            self.lemma_peeled_stable(k, m);
                        }
                    }
                } else {
                    assert(self.peeled(i, k));
                }
            }
        }
        let ghost keep = |i: int| self.unpeelable(i);
        let mut r: Vec<String> = Vec::new();
        let mut i: usize = 0;
        while i < n
            invariant
                self.wf(),
                n == self.ids().len(),
                removed.len() == n,
                i <= n,
                keep == (|i: int| self.unpeelable(i)),
                forall|j: int| 0 <= j < n ==> #[trigger] self.unpeelable(j) == !removed@[j],
                views(r@) == pick(self.ids().take(i as int), keep),
            decreases n - i,
        {
            proof {
                lemma_pick_step(self.ids(), keep, i as int);
            }
            if !removed[i] {
                r.push(self.names[i].clone());
                assert(views(r@) =~= pick(self.ids().take(i as int), keep).push(self.ids()[i as int]));
            }
            i = i + 1;
        }
        assert(self.ids().take(n as int) =~= self.ids());
        r
    }
    /// An edge joins `u` and `v`, in either direction.
    pub open spec fn adjacent(&self, u: int, v: int) -> bool {
        self.edge(u, v) || self.edge(v, u)
    }

    /// Vertex `v` is reached from `s` in at most `k` steps along edges taken in
    /// either direction.
    pub closed spec fn linked(&self, s: int, v: int, k: nat) -> bool
        decreases k,
    {
        v == s || (k > 0 && exists|u: int| #[trigger] self.adjacent(u, v) && self.linked(s, u, (k - 1) as nat))
    }

    /// Vertices `s` and `v` lie in one connected component (edge directions
    /// ignored).
    pub closed spec fn connected(&self, s: int, v: int) -> bool {
        exists|k: nat| #[trigger] self.linked(s, v, k)
    }

    /// The names of the vertices in the component of vertex `s`, in order.
    pub open spec fn component_ids(&self, s: int) -> Seq<Seq<char>> {
        pick(self.ids(), |j: int| self.connected(s, j))
    }

    /// Vertex `v` is the first of its component.
    pub open spec fn first_in_component(&self, v: int) -> bool {
        forall|j: int| 0 <= j < v ==> !#[trigger] self.connected(j, v)
    }

    /// The components whose first vertex is among the first `m`, in the order
    /// of their first vertices.
    pub open spec fn components_upto(&self, m: int) -> Seq<Seq<Seq<char>>>
        decreases m,
    {
        if m <= 0 {
            Seq::empty()
        } else {
            self.components_upto(m - 1) + if self.first_in_component(m - 1) {
                seq![self.component_ids(m - 1)]
            } else {
                Seq::empty()
            }
        }
    }

    /// `comp` lists the component of some vertex.
    pub open spec fn is_component(&self, comp: Seq<Seq<char>>) -> bool {
        exists|s: int| 0 <= s < self.ids().len() && comp == self.component_ids(s)
    }

    proof fn lemma_component_ids(&self, s: int, keep: spec_fn(int) -> bool)
        requires
            forall|j: int| #[trigger] keep(j) == self.connected(s, j),
        ensures
            pick(self.ids(), keep) == self.component_ids(s),
    {
        assert(keep =~= |j: int| self.connected(s, j));
    }

    proof fn lemma_linked_mono(&self, s: int, v: int, k: nat, m: nat)
        requires
            k <= m,
            self.linked(s, v, k),
        ensures
            self.linked(s, v, m),
        decreases k,
    {
        if v != s {
            let u = choose|u: int| #[trigger] self.adjacent(u, v) && self.linked(s, u, (k - 1) as nat);
            self.lemma_linked_mono(s, u, (k - 1) as nat, (m - 1) as nat);
        }
    }

    proof fn lemma_linked_stable(&self, s: int, k0: nat, m: nat)
        requires
            self.wf(),
            k0 <= m,
            forall|v: int| 0 <= v < self.ids().len() ==> #[trigger] self.linked(s, v, k0 + 1) == self.linked(s, v, k0),
        ensures
            forall|v: int| 0 <= v < self.ids().len() ==> #[trigger] self.linked(s, v, m) == self.linked(s, v, k0),
        decreases m,
    {
        if m > k0 {
            self.lemma_linked_stable(s, k0, (m - 1) as nat);
            assert forall|v: int| 0 <= v < self.ids().len() implies #[trigger] self.linked(s, v, m) == self.linked(
                s,
                v,
                k0,
            ) by {
                if self.linked(s, v, m) && v != s {
                    let u = choose|u: int| #[trigger] self.adjacent(u, v) && self.linked(s, u, (m - 1) as nat);
                    assert(0 <= u < self.ids().len());
                    assert(self.linked(s, u, k0));
                    assert(self.linked(s, v, k0 + 1));
                }
                if self.linked(s, v, k0) {
                    self.lemma_linked_mono(s, v, k0, m);
                }
            }
        }
    }

    proof fn lemma_linked_trans(&self, s: int, u: int, v: int, k1: nat, k2: nat)
        requires
            self.linked(s, u, k1),
            self.linked(u, v, k2),
        ensures
            self.linked(s, v, k1 + k2),
        decreases k2,
    {
        if v == u {
            self.lemma_linked_mono(s, u, k1, k1 + k2);
        } else {
            let w = choose|w: int| #[trigger] self.adjacent(w, v) && self.linked(u, w, (k2 - 1) as nat);
            self.lemma_linked_trans(s, u, w, k1, (k2 - 1) as nat);
            assert(self.adjacent(w, v) && self.linked(s, w, (k1 + k2 - 1) as nat));
        }
    }

    proof fn lemma_linked_symm(&self, s: int, v: int, k: nat)
        requires
            self.linked(s, v, k),
        ensures
            self.linked(v, s, k),
        decreases k,
    {
        if v != s {
            let u = choose|u: int| #[trigger] self.adjacent(u, v) && self.linked(s, u, (k - 1) as nat);
            self.lemma_linked_symm(s, u, (k - 1) as nat);
            assert(self.adjacent(v, u) && self.linked(v, v, 0));
            assert(self.linked(v, u, 1));
            self.lemma_linked_trans(v, u, s, 1, (k - 1) as nat);
        }
    }

    /// Being in one component is symmetric.
    pub proof fn lemma_connected_symm(&self, s: int, v: int)
        requires
            self.connected(s, v),
        ensures
            self.connected(v, s),
    {
        let k = choose|k: nat| #[trigger] self.linked(s, v, k);
        self.lemma_linked_symm(s, v, k);
    }

    /// Being in one component is transitive.
    pub proof fn lemma_connected_trans(&self, s: int, u: int, v: int)
        requires
            self.connected(s, u),
            self.connected(u, v),
        ensures
            self.connected(s, v),
    {
        let k1 = choose|k: nat| #[trigger] self.linked(s, u, k);
        let k2 = choose|k: nat| #[trigger] self.linked(u, v, k);
        self.lemma_linked_trans(s, u, v, k1, k2);
    }

    /// Every vertex is in its own component.
    pub proof fn lemma_connected_refl(&self, s: int)
        ensures
            self.connected(s, s),
    {
        assert(self.linked(s, s, 0));
    }

    fn any_adjacent_flagged(&self, v: usize, flags: &Vec<bool>, Ghost(s): Ghost<int>, Ghost(k): Ghost<nat>) -> (r: bool)
        requires
            self.wf(),
            v < self.ids().len(),
            flags.len() == self.ids().len(),
            forall|j: int| 0 <= j < flags.len() ==> flags@[j] == #[trigger] self.linked(s, j, k),
        ensures
            r == exists|u: int| #[trigger] self.adjacent(u, v as int) && self.linked(s, u, k),
    {
        let ps = &self.preds[v];
        let mut t: usize = 0;
        while t < ps.len()
            invariant
                self.wf(),
                v < self.ids().len(),
                flags.len() == self.ids().len(),
                forall|j: int| 0 <= j < flags.len() ==> flags@[j] == #[trigger] self.linked(s, j, k),
                ps == &self.preds@[v as int],
                t <= ps.len(),
                forall|m: int| 0 <= m < t ==> !#[trigger] self.linked(s, ps@[m] as int, k),
            decreases ps.len() - t,
        {
            let u = ps[t];
            proof {
                assert(ps@.contains(u));
                assert(u < self.ids().len());
                assert(flags@[u as int] == self.linked(s, u as int, k));
            }
            if flags[u] {
                assert(self.adjacent(u as int, v as int));
                return true;
            }
            t = t + 1;
        }
        let ss = &self.succs[v];
        let mut t: usize = 0;
        while t < ss.len()
            invariant
                self.wf(),
                v < self.ids().len(),
                flags.len() == self.ids().len(),
                forall|j: int| 0 <= j < flags.len() ==> flags@[j] == #[trigger] self.linked(s, j, k),
                ss == &self.succs@[v as int],
                t <= ss.len(),
                forall|m: int| 0 <= m < t ==> !#[trigger] self.linked(s, ss@[m] as int, k),
            decreases ss.len() - t,
        {
            let u = ss[t];
            proof {
                assert(ss@.contains(u));
                assert(u < self.ids().len());
                assert(flags@[u as int] == self.linked(s, u as int, k));
            }
            if flags[u] {
                assert(self.adjacent(u as int, v as int));
                return true;
            }
            t = t + 1;
        }
        proof {
            assert forall|u: int| #[trigger] self.adjacent(u, v as int) implies !self.linked(s, u, k) by {
                if self.edge(u, v as int) {
                    assert(ps@.contains(u as usize));
                    let m = choose|m: int| 0 <= m < ps.len() && ps@[m] == u as usize;
                    assert(!self.linked(s, ps@[m] as int, k));
                } else {
                    assert(ss@.contains(u as usize));
                    let m = choose|m: int| 0 <= m < ss.len() && ss@[m] == u as usize;
                    assert(!self.linked(s, ss@[m] as int, k));
                }
            }
        }
        false
    }

    /// Flags the vertices in the component of vertex `s`.
    fn component_flags(&self, s: usize) -> (r: Vec<bool>)
        requires
            self.wf(),
            s < self.ids().len(),
        ensures
            r.len() == self.ids().len(),
            forall|j: int| 0 <= j < self.ids().len() ==> r@[j] == #[trigger] self.connected(s as int, j),
    {
        let n = self.names.len();
        let mut flags: Vec<bool> = Vec::new();
        let mut cnt: usize = 0;
        while flags.len() < n
            invariant
                flags.len() <= n,
                s < n,
                forall|j: int| 0 <= j < flags.len() ==> flags@[j] == (j == s),
                cnt == count_true(flags@),
                cnt <= flags.len(),
            decreases n - flags.len(),
        {
            let f = flags.len() == s;
            proof {
                assert(flags@.push(f).drop_last() =~= flags@);
            }
            flags.push(f);
            if f {
                cnt = cnt + 1;
            }
        }
        let ghost mut k: nat = 0;
        loop
            invariant
                self.wf(),
                n == self.ids().len(),
                flags.len() == n,
                forall|j: int| 0 <= j < n ==> flags@[j] == #[trigger] self.linked(s as int, j, k),
                cnt == count_true(flags@),
                cnt <= n,
            ensures
                forall|j: int| 0 <= j < n ==> #[trigger] self.linked(s as int, j, k + 1) == self.linked(s as int, j, k),
            decreases n - cnt,
        {
            let mut next: Vec<bool> = Vec::new();
            let mut flips: usize = 0;
            let mut v: usize = 0;
            while v < n
                invariant
                    self.wf(),
                    n == self.ids().len(),
                    flags.len() == n,
                    forall|j: int| 0 <= j < n ==> flags@[j] == #[trigger] self.linked(s as int, j, k),
                    v <= n,
                    next.len() == v,
                    forall|j: int| 0 <= j < v ==> next@[j] == #[trigger] self.linked(s as int, j, k + 1),
                    count_true(next@) == count_true(flags@.take(v as int)) + flips,
                    flips <= v,
                    flips == 0 ==> forall|j: int| 0 <= j < v ==> next@[j] == flags@[j],
                decreases n - v,
            {
                let here = flags[v];
                let f = here || self.any_adjacent_flagged(v, &flags, Ghost(s as int), Ghost(k));
                proof {
                    if here {
                        self.lemma_linked_mono(s as int, v as int, k, k + 1);
                    }
                    if self.linked(s as int, v as int, k + 1) && v != s {
                        let u = choose|u: int| #[trigger] self.adjacent(u, v as int) && self.linked(s as int, u, k);
                        assert(self.adjacent(u, v as int) && self.linked(s as int, u, k));
                    }
                    if self.linked(s as int, v as int, k + 1) && v == s {
                        assert(self.linked(s as int, v as int, k));
                    }
                    if f && !here {
                        let u = choose|u: int| #[trigger] self.adjacent(u, v as int) && self.linked(s as int, u, k);
                        assert(self.adjacent(u, v as int) && self.linked(s as int, u, ((k + 1) - 1) as nat));
                        assert(self.linked(s as int, v as int, k + 1));
                    }
                    assert(f == self.linked(s as int, v as int, k + 1));
                    lemma_count_step(flags@, v as int);
                    assert(next@.push(f).drop_last() =~= next@);
                }
                next.push(f);
                if f && !here {
                    flips = flips + 1;
                }
                v = v + 1;
            }
            proof {
                assert(flags@.take(n as int) =~= flags@);
                lemma_count_bound(next@);
            }
            if flips == 0 {
                proof {
                    assert forall|j: int| 0 <= j < n implies #[trigger] self.linked(s as int, j, k + 1) == self.linked(
                        s as int,
                        j,
                        k,
                    ) by {
                        assert(next@[j] == flags@[j]);
                    }
                }
                break;
            }
            flags = next;
            cnt = cnt + flips;
            proof {
                k = k + 1;
            }
        }
        proof {
            assert forall|j: int| 0 <= j < n implies flags@[j] == #[trigger] self.connected(s as int, j) by {
                if !flags@[j] {
                    assert forall|m: nat| !#[trigger] self.linked(s as int, j, m) by {
                        if m <= k {
                            if self.linked(s as int, j, m) {
                                self.lemma_linked_mono(s as int, j, m, k);
                            }
                        } else {
                            self.lemma_linked_stable(s as int, k, m);
                        }
                    }
                } else {
                    assert(self.linked(s as int, j, k));
                }
            }
        }
        flags
    }

    /// The names of the flagged vertices, in order.
    fn names_where(&self, flags: &Vec<bool>, Ghost(keep): Ghost<spec_fn(int) -> bool>) -> (r: Vec<String>)
        requires
            self.wf(),
            flags.len() == self.ids().len(),
            forall|j: int| 0 <= j < flags.len() ==> flags@[j] == #[trigger] keep(j),
        ensures
            views(r@) == pick(self.ids(), keep),
    {
        let n = self.names.len();
        let mut r: Vec<String> = Vec::new();
        let mut i: usize = 0;
        while i < n
            invariant
                self.wf(),
                n == self.ids().len(),
                flags.len() == n,
                i <= n,
                forall|j: int| 0 <= j < flags.len() ==> flags@[j] == #[trigger] keep(j),
                views(r@) == pick(self.ids().take(i as int), keep),
            decreases n - i,
        {
            proof {
                lemma_pick_step(self.ids(), keep, i as int);
                assert(flags@[i as int] == keep(i as int));
            }
            if flags[i] {
                r.push(self.names[i].clone());
                assert(views(r@) =~= pick(self.ids().take(i as int), keep).push(self.ids()[i as int]));
            }
            i = i + 1;
        }
        assert(self.ids().take(n as int) =~= self.ids());
        r
    }

    /// The vertices in the component of the vertex named `vid`, in order.
    pub fn find_component(&self, vid: &str) -> (r: Vec<String>)
        requires
            self.wf(),
            self.ids().contains(vid@),
        ensures
            forall|i: int| 0 <= i < self.ids().len() && self.ids()[i] == vid@ ==> views(r@) == self.component_ids(i),
    {
        let s = match self.index_of(vid) {
            Some(s) => s,
            None => {
                return Vec::new();
            },
        };
        let flags = self.component_flags(s);
        let r = self.names_where(&flags, Ghost(|j: int| self.connected(s as int, j)));
        proof {
            self.lemma_component_ids(s as int, |j: int| self.connected(s as int, j));
        }
        assert(forall|i: int| 0 <= i < self.ids().len() && self.ids()[i] == vid@ ==> i == s);
        r
    }

    /// The connected components (edge directions ignored): each is listed once,
    /// with its vertices in order, and every vertex is in exactly one of them.
    pub fn find_components(&self) -> (r: Vec<Vec<String>>)
        requires
            self.wf(),
        ensures
            nested_views(r@) == self.components_upto(self.ids().len() as int),
            forall|c: int| 0 <= c < r.len() ==> self.is_component(#[trigger] nested_views(r@)[c]),
            forall|v: int| 0 <= v < self.ids().len() ==> listed_in(nested_views(r@), #[trigger] self.ids()[v]),
            forall|c1: int, c2: int, v: int|
                0 <= c1 < r.len() && 0 <= c2 < r.len() && c1 != c2 && 0 <= v < self.ids().len()
                    && #[trigger] nested_views(r@)[c1].contains(#[trigger] self.ids()[v]) ==> !#[trigger] nested_views(
                    r@,
                )[c2].contains(self.ids()[v]),
    {
        let n = self.names.len();
        let mut assigned: Vec<bool> = Vec::new();
        while assigned.len() < n
            invariant
                assigned.len() <= n,
                forall|j: int| 0 <= j < assigned.len() ==> !assigned@[j],
            decreases n - assigned.len(),
        {
            assigned.push(false);
        }
        let ghost mut reps: Seq<int> = Seq::empty();
        let mut r: Vec<Vec<String>> = Vec::new();
        let mut v: usize = 0;
        while v < n
            invariant
                self.wf(),
                n == self.ids().len(),
                assigned.len() == n,
                v <= n,
                r.len() == reps.len(),
                forall|c: int| 0 <= c < reps.len() ==> 0 <= #[trigger] reps[c] < n,
                forall|c: int| 0 <= c < reps.len() ==> #[trigger] views(r@[c]@) == self.component_ids(reps[c]),
                forall|j: int| 0 <= j < n ==> #[trigger] assigned@[j] == exists|c: int| 0 <= c < reps.len() && self.connected(
                    reps[c],
                    j,
                ),
                forall|j: int| 0 <= j < v ==> #[trigger] assigned@[j],
                forall|c: int| 0 <= c < reps.len() ==> #[trigger] reps[c] < v,
                nested_views(r@) == self.components_upto(v as int),
                forall|c1: int, c2: int|
                    0 <= c1 < reps.len() && 0 <= c2 < reps.len() && c1 != c2 ==> !self.connected(
                        #[trigger] reps[c1],
                        #[trigger] reps[c2],
                    ),
            decreases n - v,
        {
            let ghost nv0 = nested_views(r@);
            proof {
                if assigned@[v as int] {
                    let c = choose|c: int| 0 <= c < reps.len() && self.connected(reps[c], v as int);
                    assert(reps[c] < v);
                    assert(!self.first_in_component(v as int));
                } else {
                    assert forall|j: int| 0 <= j < v implies !#[trigger] self.connected(j, v as int) by {
                        if self.connected(j, v as int) {
                            assert(assigned@[j]);
                            let c = choose|c: int| 0 <= c < reps.len() && self.connected(reps[c], j);
                            self.lemma_connected_trans(reps[c], j, v as int);
                        }
                    }
                }
                assert(self.components_upto(v + 1) == self.components_upto(v as int) + if self.first_in_component(v as int) {
                    seq![self.component_ids(v as int)]
                } else {
                    Seq::empty()
                });
            }
            if !assigned[v] {
                let flags = self.component_flags(v);
                let comp = self.names_where(&flags, Ghost(|j: int| self.connected(v as int, j)));
                proof {
                    self.lemma_component_ids(v as int, |j: int| self.connected(v as int, j));
                }
                let ghost compv = views(comp@);
                r.push(comp);
                proof {
                    assert(nested_views(r@) =~= nv0.push(compv));
                    assert(nested_views(r@) =~= self.components_upto(v + 1));
                }
                let ghost old_reps = reps;
                let ghost before = assigned@;
                proof {
                    reps = reps.push(v as int);
                    assert forall|c1: int, c2: int|
                        0 <= c1 < reps.len() && 0 <= c2 < reps.len() && c1 != c2 implies !self.connected(
                        #[trigger] reps[c1],
                        #[trigger] reps[c2],
                    ) by {
                        if c2 == reps.len() - 1 {
                            assert(!assigned@[v as int]);
                            assert(reps[c1] == old_reps[c1]);
                        } else if c1 == reps.len() - 1 {
                            assert(!assigned@[v as int]);
                            assert(reps[c2] == old_reps[c2]);
                            if self.connected(reps[c1], reps[c2]) {
                                self.lemma_connected_symm(reps[c1], reps[c2]);
                            }
                        } else {
                            assert(reps[c1] == old_reps[c1] && reps[c2] == old_reps[c2]);
                        }
                    }
                }
                let mut j: usize = 0;
                while j < n
                    invariant
                        self.wf(),
                        n == self.ids().len(),
                        assigned.len() == n,
                        flags.len() == n,
                        j <= n,
                        reps == old_reps.push(v as int),
                        forall|m: int| 0 <= m < n ==> flags@[m] == #[trigger] self.connected(v as int, m),
                        forall|m: int| 0 <= m < n ==> #[trigger] assigned@[m] == (if m < j {
                            (exists|c: int| 0 <= c < old_reps.len() && self.connected(old_reps[c], m)) || flags@[m]
                        } else {
                            exists|c: int| 0 <= c < old_reps.len() && self.connected(old_reps[c], m)
                        }),
                    decreases n - j,
                {
                    if flags[j] {
                        assigned.set(j, true);
                    }
                    j = j + 1;
                }
                proof {
                    assert forall|m: int| 0 <= m < n implies #[trigger] assigned@[m] == exists|c: int|
                        0 <= c < reps.len() && self.connected(reps[c], m) by {
                        if exists|c: int| 0 <= c < reps.len() && self.connected(reps[c], m) {
                            let c = choose|c: int| 0 <= c < reps.len() && self.connected(reps[c], m);
                            if c < old_reps.len() {
                                assert(self.connected(old_reps[c], m));
                            }
                        }
                        if flags@[m] {
                            assert(self.connected(reps[reps.len() - 1], m));
                        }
                        if exists|c: int| 0 <= c < old_reps.len() && self.connected(old_reps[c], m) {
                            let c = choose|c: int| 0 <= c < old_reps.len() && self.connected(old_reps[c], m);
                            assert(self.connected(reps[c], m));
                        }
                    }
                    self.lemma_connected_refl(v as int);
                    assert(flags@[v as int]);
                    assert forall|c: int| 0 <= c < reps.len() implies #[trigger] views(r@[c]@) == self.component_ids(
                        reps[c],
                    ) by {
                        if c < reps.len() - 1 {
                            assert(reps[c] == old_reps[c]);
                        }
                    }
                    assert forall|m: int| 0 <= m < v implies #[trigger] assigned@[m] by {
                        assert(before[m]);
                    }
                    assert forall|c: int| 0 <= c < reps.len() implies #[trigger] reps[c] < v + 1 by {
                        if c < reps.len() - 1 {
                            assert(reps[c] == old_reps[c]);
                        }
                    }
                }
            }
            proof {
                if assigned@[v as int] && nested_views(r@) == nv0 {
                    assert(nested_views(r@) =~= self.components_upto(v + 1));
                }
            }
            v = v + 1;
        }
        proof {
            let nv = nested_views(r@);
            assert forall|c: int| 0 <= c < r.len() implies self.is_component(#[trigger] nested_views(r@)[c]) by {
                assert(0 <= reps[c] < n);
                assert(nv[c] == views(r@[c]@));
                assert(views(r@[c]@) == self.component_ids(reps[c]));
            }
            assert forall|v: int| 0 <= v < self.ids().len() implies listed_in(nested_views(r@), #[trigger] self.ids()[v]) by {
                assert(assigned@[v]);
                let c = choose|c: int| 0 <= c < reps.len() && self.connected(reps[c], v);
                lemma_pick_contains(self.ids(), |j: int| self.connected(reps[c], j), self.ids()[v]);
                assert(views(r@[c]@) == self.component_ids(reps[c]));
                assert(nv[c] == views(r@[c]@));
                assert(nv[c].contains(self.ids()[v]));
            }
            assert forall|c1: int, c2: int, v: int|
                0 <= c1 < r.len() && 0 <= c2 < r.len() && c1 != c2 && 0 <= v < self.ids().len()
                    && #[trigger] nested_views(r@)[c1].contains(#[trigger] self.ids()[v]) implies !#[trigger] nested_views(
                    r@,
                )[c2].contains(self.ids()[v]) by {
                assert(nv[c1] == views(r@[c1]@));
                assert(nv[c2] == views(r@[c2]@));
                lemma_pick_contains(self.ids(), |j: int| self.connected(reps[c1], j), self.ids()[v]);
                lemma_pick_contains(self.ids(), |j: int| self.connected(reps[c2], j), self.ids()[v]);
                assert(views(r@[c1]@) == self.component_ids(reps[c1]));
                assert(views(r@[c2]@) == self.component_ids(reps[c2]));
                if views(r@[c2]@).contains(self.ids()[v]) {
                    let j1 = choose|j: int| 0 <= j < self.ids().len() && self.connected(reps[c1], j) && self.ids()[j]
                        == self.ids()[v];
                    let j2 = choose|j: int| 0 <= j < self.ids().len() && self.connected(reps[c2], j) && self.ids()[j]
                        == self.ids()[v];
                    assert(j1 == v && j2 == v);
                    self.lemma_connected_symm(reps[c2], v);
                    self.lemma_connected_trans(reps[c1], v, reps[c2]);
                }
            }
        }
        r
    }
    /// There is an edge from the vertex named `x` to the vertex named `y`.
    pub open spec fn id_edge(&self, x: Seq<char>, y: Seq<char>) -> bool {
        exists|i: int, j: int| #[trigger] self.named_pair(i, j, x, y) && self.edge(i, j)
    }

    /// `q` names, in order, the vertices of a path from `a` to `b` that visits
    /// no vertex twice.
    pub open spec fn is_id_path(&self, q: Seq<Seq<char>>, a: Seq<char>, b: Seq<char>) -> bool {
        &&& q.len() > 0
        &&& q[0] == a
        &&& q[q.len() - 1] == b
        &&& q.no_duplicates()
        &&& forall|k: int| 0 <= k < q.len() ==> self.ids().contains(#[trigger] q[k])
        &&& forall|k: int| 0 <= k < q.len() - 1 ==> #[trigger] self.id_edge(q[k], q[k + 1])
    }

    /// No vertex named in `q` is flagged in `blocked`.
    pub open spec fn avoids(&self, q: Seq<Seq<char>>, blocked: Seq<bool>) -> bool {
        forall|k: int, i: int|
            0 <= k < q.len() && 0 <= i < self.ids().len() && #[trigger] self.ids()[i] == #[trigger] q[k] ==> !blocked[i]
    }

    proof fn lemma_path_tail(&self, q: Seq<Seq<char>>, v: int, w: int, dst: int, b: Seq<bool>)
        requires
            self.wf(),
            0 <= v < self.ids().len(),
            0 <= w < self.ids().len(),
            0 <= dst < self.ids().len(),
            b.len() == self.ids().len(),
            self.is_id_path(q, self.ids()[v], self.ids()[dst]),
            self.avoids(q, b),
            q.len() > 1,
            q[1] == self.ids()[w],
        ensures
            self.is_id_path(q.drop_first(), self.ids()[w], self.ids()[dst]),
            self.avoids(q.drop_first(), b.update(v, true)),
    {
        let t = q.drop_first();
        assert forall|k: int| 0 <= k < t.len() - 1 implies #[trigger] self.id_edge(t[k], t[k + 1]) by {
            assert(0 <= k + 1 < q.len() - 1);
            assert(self.id_edge(q[k + 1], q[(k + 1) + 1]));
        }
        assert forall|k: int| 0 <= k < t.len() implies self.ids().contains(#[trigger] t[k]) by {
            assert(self.ids().contains(q[k + 1]));
        }
        assert forall|k: int, i: int|
            0 <= k < t.len() && 0 <= i < self.ids().len() && #[trigger] self.ids()[i] == #[trigger] t[k] implies !b.update(
            v,
            true,
        )[i] by {
            assert(self.ids()[i] == q[k + 1]);
            if i == v {
                assert(q[0] == q[k + 1]);
            }
        }
    }

    proof fn lemma_path_cons(&self, t: Seq<Seq<char>>, v: int, w: int, dst: int, b: Seq<bool>)
        requires
            self.wf(),
            0 <= v < self.ids().len(),
            0 <= w < self.ids().len(),
            0 <= dst < self.ids().len(),
            b.len() == self.ids().len(),
            !b[v],
            self.edge(v, w),
            self.is_id_path(t, self.ids()[w], self.ids()[dst]),
            self.avoids(t, b.update(v, true)),
        ensures
            self.is_id_path(seq![self.ids()[v]] + t, self.ids()[v], self.ids()[dst]),
            self.avoids(seq![self.ids()[v]] + t, b),
            (seq![self.ids()[v]] + t).drop_first() == t,
    {
        let q = seq![self.ids()[v]] + t;
        assert(q.drop_first() =~= t);
        assert forall|k: int| 0 <= k < t.len() implies t[k] != self.ids()[v] by {
            if t[k] == self.ids()[v] {
                assert(b.update(v, true)[v]);
            }
        }
        assert(q.no_duplicates()) by {
            assert forall|i: int, j: int| 0 <= i < q.len() && 0 <= j < q.len() && i != j implies q[i] != q[j] by {
                if i > 0 && j > 0 {
                    assert(q[i] == t[i - 1] && q[j] == t[j - 1]);
                } else if i == 0 {
                    assert(q[j] == t[j - 1]);
                } else {
                    assert(q[i] == t[i - 1]);
                }
            }
        }
        assert forall|k: int| 0 <= k < q.len() implies self.ids().contains(#[trigger] q[k]) by {
            if k == 0 {
                assert(self.ids()[v] == q[0]);
            } else {
                assert(q[k] == t[k - 1]);
            }
        }
        assert forall|k: int| 0 <= k < q.len() - 1 implies #[trigger] self.id_edge(q[k], q[k + 1]) by {
            if k == 0 {
                assert(self.named_pair(v, w, q[0], q[1]));
            } else {
                assert(q[k] == t[k - 1] && q[k + 1] == t[k]);
                assert(self.id_edge(t[k - 1], t[k]));
            }
        }
        assert forall|k: int, i: int|
            0 <= k < q.len() && 0 <= i < self.ids().len() && #[trigger] self.ids()[i] == #[trigger] q[k] implies !b[i] by {
            if k == 0 {
                assert(i == v);
            } else {
                assert(q[k] == t[k - 1]);
                assert(!b.update(v, true)[i]);
            }
        }
    }

    proof fn lemma_path_second(&self, q: Seq<Seq<char>>, v: int, dst: int) -> (j: int)
        requires
            self.wf(),
            0 <= v < self.ids().len(),
            0 <= dst < self.ids().len(),
            v != dst,
            self.is_id_path(q, self.ids()[v], self.ids()[dst]),
        ensures
            q.len() > 1,
            0 <= j < self.ids().len(),
            self.edge(v, j),
            q[1] == self.ids()[j],
    {
        if q.len() == 1 {
            assert(self.ids()[v] == self.ids()[dst]);
        }
        assert(0 < q.len() - 1);
        assert(self.id_edge(q[0], q[0int + 1]));
        let (i, j) = choose|i: int, j: int| #[trigger] self.named_pair(i, j, q[0], q[1]) && self.edge(i, j);
        assert(i == v);
        j
    }

    fn prepend(x: &String, q: &Vec<String>) -> (r: Vec<String>)
        ensures
            views(r@) == seq![x@] + views(q@),
    {
        let mut r: Vec<String> = Vec::new();
        r.push(x.clone());
        let mut i: usize = 0;
        while i < q.len()
            invariant
                i <= q.len(),
                views(r@) == seq![x@] + views(q@).take(i as int),
            decreases q.len() - i,
        {
            let ghost r0 = r@;
            r.push(q[i].clone());
            assert(views(r@) =~= views(r0).push(q@[i as int]@));
            assert(views(q@).take(i + 1) =~= views(q@).take(i as int).push(q@[i as int]@));
            assert(views(r@) =~= seq![x@] + views(q@).take(i + 1));
            i = i + 1;
        }
        assert(views(q@).take(q.len() as int) =~= views(q@));
        r
    }

    /// The paths from vertex `v` to vertex `dst` that visit no vertex twice and
    /// avoid the flagged vertices; `blocked` is as it was on return.
    fn paths_from(&self, v: usize, dst: usize, blocked: &mut Vec<bool>) -> (r: Vec<Vec<String>>)
        requires
            self.wf(),
            v < self.ids().len(),
            dst < self.ids().len(),
            old(blocked).len() == self.ids().len(),
            !old(blocked)@[v as int],
        ensures
            final(blocked)@ == old(blocked)@,
            forall|q: Seq<Seq<char>>| #[trigger] nested_views(r@).contains(q) <==> (self.is_id_path(
                q,
                self.ids()[v as int],
                self.ids()[dst as int],
            ) && self.avoids(q, old(blocked)@)),
            nested_views(r@).no_duplicates(),
        decreases self.ids().len() - count_true(old(blocked)@),
    {
        let ghost n = self.ids().len();
        let ghost ob = blocked@;
        if v == dst {
            let mut p: Vec<String> = Vec::new();
            p.push(self.names[v].clone());
            let mut r: Vec<Vec<String>> = Vec::new();
            r.push(p);
            proof {
                let x = self.ids()[v as int];
                assert(views(p@) =~= seq![x]);
                assert(nested_views(r@) =~= seq![seq![x]]);
                assert forall|q: Seq<Seq<char>>| #[trigger] nested_views(r@).contains(q) <==> (self.is_id_path(q, x, x)
                    && self.avoids(q, ob)) by {
                    if nested_views(r@).contains(q) {
                        assert(q == nested_views(r@)[0]);
                        assert(q =~= seq![x]);
                        assert(self.ids().contains(q[0]));
                        assert forall|k: int, i: int|
                            0 <= k < q.len() && 0 <= i < self.ids().len() && #[trigger] self.ids()[i] == #[trigger] q[k] implies !ob[i] by {
                            assert(i == v);
                        }
                    }
                    if self.is_id_path(q, x, x) && self.avoids(q, ob) {
                        if q.len() > 1 {
                            assert(q[0] == q[q.len() - 1]);
                        }
                        assert(q =~= seq![x]);
                        assert(nested_views(r@)[0] == q);
                    }
                }
            }
            return r;
        }
        proof {
            lemma_count_set(blocked@, v as int);
            lemma_count_bound(blocked@.update(v as int, true));
        }
        blocked.set(v, true);
        let ghost b1 = blocked@;
        let mut acc: Vec<Vec<String>> = Vec::new();
        let ss = &self.succs[v];
        let mut t: usize = 0;
        while t < ss.len()
            invariant
                self.wf(),
                n == self.ids().len(),
                v < n,
                dst < n,
                v != dst,
                ob.len() == n,
                !ob[v as int],
                b1 == ob.update(v as int, true),
                blocked@ == b1,
                count_true(b1) == count_true(ob) + 1,
                count_true(b1) <= n,
                ob == old(blocked)@,
                ss == &self.succs@[v as int],
                t <= ss.len(),
                forall|q: Seq<Seq<char>>| #[trigger] nested_views(acc@).contains(q) <==> (self.is_id_path(
                    q,
                    self.ids()[v as int],
                    self.ids()[dst as int],
                ) && self.avoids(q, ob) && q.len() > 1 && exists|m: int| 0 <= m < t && q[1] == self.ids()[ss@[m] as int]),
                nested_views(acc@).no_duplicates(),
            decreases ss.len() - t,
        {
            let w = ss[t];
            proof {
                assert(ss@.contains(w));
                assert(w < n);
                assert(self.edge(v as int, w as int));
            }
            let ghost acc0 = nested_views(acc@);
            let ghost x = self.ids()[v as int];
            proof {
                assert forall|q: Seq<Seq<char>>| acc0.contains(q) implies q.len() > 1 && q[1] != self.ids()[w as int] by {
                    let m = choose|m: int| 0 <= m < t && q[1] == self.ids()[ss@[m] as int];
                    assert(ss@[m] != ss@[t as int]);
                    assert(ss@[m] < n);
                }
            }
            if !blocked[w] {
                let sub = self.paths_from(w, dst, blocked);
                let ghost subv = nested_views(sub@);
                let mut i: usize = 0;
                while i < sub.len()
                    invariant
                        self.wf(),
                        n == self.ids().len(),
                        v < n,
                        w < n,
                        v != dst,
                        x == self.ids()[v as int],
                        i <= sub.len(),
                        blocked@ == b1,
                        subv == nested_views(sub@),
                        forall|q: Seq<Seq<char>>| #[trigger] nested_views(acc@).contains(q) <==> (acc0.contains(q)
                            || exists|i2: int| 0 <= i2 < i && q == seq![x] + subv[i2]),
                        nested_views(acc@).no_duplicates(),
                        subv.no_duplicates(),
                        forall|q: Seq<Seq<char>>| acc0.contains(q) ==> q.len() > 1 && q[1] != self.ids()[w as int],
                        forall|q: Seq<Seq<char>>| #[trigger] subv.contains(q) ==> q.len() > 0 && q[0] == self.ids()[w as int],
                    decreases sub.len() - i,
                {
                    let np = Self::prepend(&self.names[v], &sub[i]);
                    let ghost accv = nested_views(acc@);
                    let ghost nq = views(np@);
                    proof {
                        assert(subv[i as int] == views(sub@[i as int]@));
                        assert(subv.contains(subv[i as int]));
                        assert(nq == seq![x] + subv[i as int]);
                        assert(nq[1] == self.ids()[w as int]);
                        assert(!accv.contains(nq)) by {
                            if accv.contains(nq) {
                                if !acc0.contains(nq) {
                                    let i2 = choose|i2: int| 0 <= i2 < i && nq == seq![x] + subv[i2];
                                    assert(subv[i2] =~= nq.drop_first());
                                    assert(subv[i as int] =~= nq.drop_first());
                                }
                            }
                        }
                    }
                    acc.push(np);
                    proof {
                        assert(nested_views(acc@) =~= accv.push(nq));
                        assert forall|q: Seq<Seq<char>>| #[trigger] nested_views(acc@).contains(q) <==> (acc0.contains(q)
                            || exists|i2: int| 0 <= i2 < i + 1 && q == seq![x] + subv[i2]) by {
                            if nested_views(acc@).contains(q) && !accv.contains(q) {
                                let k = choose|k: int| 0 <= k < nested_views(acc@).len() && nested_views(acc@)[k] == q;
                                assert(k == accv.len());
                                assert(q == seq![x] + subv[i as int]);
                            }
                            if exists|i2: int| 0 <= i2 < i + 1 && q == seq![x] + subv[i2] {
                                let i2 = choose|i2: int| 0 <= i2 < i + 1 && q == seq![x] + subv[i2];
                                if i2 == i {
                                    assert(nested_views(acc@)[accv.len() as int] == q);
                                } else {
                                    assert(accv.contains(q));
                                }
                            }
                            if accv.contains(q) {
                                let k = choose|k: int| 0 <= k < accv.len() && accv[k] == q;
                                assert(nested_views(acc@)[k] == q);
                            }
                        }
                    }
                    i = i + 1;
                }
                proof {
                    assert forall|q: Seq<Seq<char>>| #[trigger] nested_views(acc@).contains(q) <==> (self.is_id_path(
                        q,
                        self.ids()[v as int],
                        self.ids()[dst as int],
                    ) && self.avoids(q, ob) && q.len() > 1 && exists|m: int| 0 <= m < t + 1 && q[1] == self.ids()[ss@[m] as int]) by {
                        if nested_views(acc@).contains(q) {
                            if acc0.contains(q) {
                                let m = choose|m: int| 0 <= m < t && q[1] == self.ids()[ss@[m] as int];
                                assert(0 <= m < t + 1 && q[1] == self.ids()[ss@[m] as int]);
                            } else {
                                let i2 = choose|i2: int| 0 <= i2 < sub.len() && q == seq![x] + subv[i2];
                                assert(subv.contains(subv[i2]));
                                self.lemma_path_cons(subv[i2], v as int, w as int, dst as int, ob);
                                assert(q[1] == self.ids()[ss@[t as int] as int]);
                            }
                        }
                        if self.is_id_path(q, self.ids()[v as int], self.ids()[dst as int]) && self.avoids(q, ob)
                            && q.len() > 1 && exists|m: int| 0 <= m < t + 1 && q[1] == self.ids()[ss@[m] as int] {
                            let m = choose|m: int| 0 <= m < t + 1 && q[1] == self.ids()[ss@[m] as int];
                            if m < t {
                                assert(acc0.contains(q));
                            } else {
                                self.lemma_path_tail(q, v as int, w as int, dst as int, ob);
                                assert(subv.contains(q.drop_first()));
                                let i2 = choose|i2: int| 0 <= i2 < subv.len() && subv[i2] == q.drop_first();
                                assert(q =~= seq![x] + subv[i2]);
                            }
                        }
                    }
                }
            } else {
                proof {
                    assert forall|q: Seq<Seq<char>>| #[trigger] nested_views(acc@).contains(q) <==> (self.is_id_path(
                        q,
                        self.ids()[v as int],
                        self.ids()[dst as int],
                    ) && self.avoids(q, ob) && q.len() > 1 && exists|m: int| 0 <= m < t + 1 && q[1] == self.ids()[ss@[m] as int]) by {
                        if self.is_id_path(q, self.ids()[v as int], self.ids()[dst as int]) && self.avoids(q, ob)
                            && q.len() > 1 && exists|m: int| 0 <= m < t + 1 && q[1] == self.ids()[ss@[m] as int] {
                            let m = choose|m: int| 0 <= m < t + 1 && q[1] == self.ids()[ss@[m] as int];
                            if m == t {
                                if w == v {
                                    assert(q[0] == q[1]);
                                } else {
                                    assert(ob[w as int]);
                                    assert(self.ids()[w as int] == q[1]);
                                }
                            }
                        }
                        if nested_views(acc@).contains(q) {
                            let m = choose|m: int| 0 <= m < t && q[1] == self.ids()[ss@[m] as int];
                            assert(0 <= m < t + 1 && q[1] == self.ids()[ss@[m] as int]);
                        }
                    }
                }
            }
            t = t + 1;
        }
        blocked.set(v, false);
        proof {
            assert(blocked@ =~= ob);
            assert forall|q: Seq<Seq<char>>| #[trigger] nested_views(acc@).contains(q) <==> (self.is_id_path(
                q,
                self.ids()[v as int],
                self.ids()[dst as int],
            ) && self.avoids(q, ob)) by {
                if self.is_id_path(q, self.ids()[v as int], self.ids()[dst as int]) && self.avoids(q, ob) {
                    let j = self.lemma_path_second(q, v as int, dst as int);
                    assert(ss@.contains(j as usize));
                    let m = choose|m: int| 0 <= m < ss.len() && ss@[m] == j as usize;
                    assert(q[1] == self.ids()[ss@[m] as int]);
                }
            }
        }
        acc
    }
    proof fn lemma_path_connected(&self, l: Seq<Seq<char>>, a: int, b: int)
        requires
            self.wf(),
            0 <= a < self.ids().len(),
            0 <= b < self.ids().len(),
            self.is_id_path(l, self.ids()[a], self.ids()[b]),
        ensures
            self.connected(a, b),
        decreases l.len(),
    {
        if a == b {
            self.lemma_connected_refl(a);
        } else {
            let j = self.lemma_path_second(l, a, b);
            let bl = Seq::new(self.ids().len(), |i: int| false);
            assert forall|k: int, i: int|
                0 <= k < l.len() && 0 <= i < self.ids().len() && #[trigger] self.ids()[i] == #[trigger] l[k] implies !bl[i] by {}
            self.lemma_path_tail(l, a, j, b, bl);
            self.lemma_path_connected(l.drop_first(), j, b);
            assert(self.adjacent(a, j) && self.linked(a, a, 0));
            assert(self.linked(a, j, 1));
            self.lemma_connected_trans(a, j, b);
        }
    }

    /// All paths from the vertex named `src` to the vertex named `dst` that
    /// visit no vertex twice, or `None` when there is none; from a vertex to
    /// itself there is just the one-vertex path.
    pub fn find_paths(&self, src: &str, dst: &str) -> (r: Option<Vec<Vec<String>>>)
        requires
            self.wf(),
            src@ == dst@ || self.ids().contains(src@),
        ensures
            src@ == dst@ ==> r is Some && nested_views(r.unwrap()@) == seq![seq![src@]],
            src@ != dst@ ==> match r {
                None => forall|q: Seq<Seq<char>>| !self.is_id_path(q, src@, dst@),
                Some(ps) => ps.len() > 0 && nested_views(ps@).no_duplicates() && forall|q: Seq<Seq<char>>| #[trigger] nested_views(
                    ps@,
                ).contains(q) <==> self.is_id_path(q, src@, dst@),
            },
    {
        if str_eq(src, dst) {
            let mut p: Vec<String> = Vec::new();
            p.push(String::from_str(src));
            let mut r: Vec<Vec<String>> = Vec::new();
            assert(views(p@) =~= seq![src@]);
            r.push(p);
            assert(nested_views(r@) =~= seq![views(p@)]);
            return Some(r);
        }
        let si = match self.index_of(src) {
            Some(si) => si,
            None => {
                return None;
            },
        };
        let di = match self.index_of(dst) {
            Some(di) => di,
            None => {
                proof {
                    assert forall|q: Seq<Seq<char>>| !self.is_id_path(q, src@, dst@) by {
                        if self.is_id_path(q, src@, dst@) {
                            assert(self.ids().contains(q[q.len() - 1]));
                        }
                    }
                }
                return None;
            },
        };
        let mut blocked: Vec<bool> = Vec::new();
        while blocked.len() < self.names.len()
            invariant
                blocked.len() <= self.names.len(),
                forall|j: int| 0 <= j < blocked.len() ==> !blocked@[j],
            decreases self.names.len() - blocked.len(),
        {
            blocked.push(false);
        }
        let ghost b0 = blocked@;
        let ps = self.paths_from(si, di, &mut blocked);
        proof {
            assert forall|q: Seq<Seq<char>>| #[trigger] nested_views(ps@).contains(q) <==> self.is_id_path(q, src@, dst@) by {
                assert forall|k: int, i: int|
                    0 <= k < q.len() && 0 <= i < self.ids().len() && #[trigger] self.ids()[i] == #[trigger] q[k] implies !b0[i] by {}
            }
        }
        if ps.len() == 0 {
            proof {
                assert forall|q: Seq<Seq<char>>| !self.is_id_path(q, src@, dst@) by {
                    if self.is_id_path(q, src@, dst@) {
                        assert(nested_views(ps@).contains(q));
                    }
                }
            }
            None
        } else {
            Some(ps)
        }
    }

    /// All paths from `src` to `dst` that visit no vertex twice (see `find_paths`).
    pub fn find_pipeline(&self, src: &str, dst: &str) -> (r: Option<Vec<Vec<String>>>)
        requires
            self.wf(),
            src@ == dst@ || self.ids().contains(src@),
        ensures
            src@ == dst@ ==> r is Some && nested_views(r.unwrap()@) == seq![seq![src@]],
            src@ != dst@ ==> match r {
                None => forall|q: Seq<Seq<char>>| !self.is_id_path(q, src@, dst@),
                Some(ps) => ps.len() > 0 && nested_views(ps@).no_duplicates() && forall|q: Seq<Seq<char>>| #[trigger] nested_views(
                    ps@,
                ).contains(q) <==> self.is_id_path(q, src@, dst@),
            },
    {
        self.find_paths(src, dst)
    }
    /// `p` splits at position `k` into a path from `a` to `mid` and a path from
    /// `mid` to `b`, neither visiting a vertex twice.
    pub open spec fn split_ok(&self, p: Seq<Seq<char>>, k: int, a: Seq<char>, mid: Seq<char>, b: Seq<char>) -> bool {
        &&& 0 <= k < p.len()
        &&& self.is_id_path(p.take(k + 1), a, mid)
        &&& self.is_id_path(p.skip(k), mid, b)
    }

    /// `p` goes from `a` through `mid` to `b`.
    pub open spec fn via(&self, p: Seq<Seq<char>>, a: Seq<char>, mid: Seq<char>, b: Seq<char>) -> bool {
        exists|k: int| #[trigger] self.split_ok(p, k, a, mid, b)
    }

    /// `x` names a vertex without incoming edges.
    pub open spec fn is_source_id(&self, x: Seq<char>) -> bool {
        exists|i: int| 0 <= i < self.ids().len() && self.ids()[i] == x && self.no_preds(i)
    }

    /// `x` names a vertex without outgoing edges.
    pub open spec fn is_sink_id(&self, x: Seq<char>) -> bool {
        exists|i: int| 0 <= i < self.ids().len() && self.ids()[i] == x && self.no_succs(i)
    }

    /// `p` is a pipeline through `mid`: it starts at a source, ends at a sink
    /// and passes `mid`, and its parts before and after `mid` visit no vertex
    /// twice.
    pub open spec fn is_pipeline(&self, p: Seq<Seq<char>>, mid: Seq<char>) -> bool {
        &&& p.len() > 0
        &&& self.is_source_id(p[0])
        &&& self.is_sink_id(p[p.len() - 1])
        &&& self.via(p, p[0], mid, p[p.len() - 1])
    }

    proof fn lemma_single_path(&self, q: Seq<Seq<char>>, x: Seq<char>)
        requires
            self.ids().contains(x),
        ensures
            self.is_id_path(q, x, x) <==> q == seq![x],
    {
        if self.is_id_path(q, x, x) {
            if q.len() > 1 {
                assert(q[0] == q[q.len() - 1]);
            }
            assert(q =~= seq![x]);
        }
        if q == seq![x] {
            assert(self.ids().contains(q[0]));
        }
    }

    proof fn lemma_via_ends(&self, p: Seq<Seq<char>>, a: Seq<char>, mid: Seq<char>, b: Seq<char>)
        requires
            self.via(p, a, mid, b),
        ensures
            p.len() > 0,
            p[0] == a,
            p[p.len() - 1] == b,
    {
        let k = choose|k: int| #[trigger] self.split_ok(p, k, a, mid, b);
        assert(p.take(k + 1)[0] == p[0]);
        assert(p.skip(k)[p.skip(k).len() - 1] == p[p.len() - 1]);
    }

    proof fn lemma_joined_via(
        &self,
        ls: Seq<Seq<Seq<char>>>,
        rs: Seq<Seq<Seq<char>>>,
        p: Seq<Seq<char>>,
        a: Seq<char>,
        mid: Seq<char>,
        b: Seq<char>,
    )
        requires
            forall|q: Seq<Seq<char>>| #[trigger] ls.contains(q) <==> self.is_id_path(q, a, mid),
            forall|q: Seq<Seq<char>>| #[trigger] rs.contains(q) <==> self.is_id_path(q, mid, b),
        ensures
            (exists|x: int, y: int| 0 <= x < ls.len() && 0 <= y < rs.len() && p == #[trigger] joined(ls[x], rs[y]))
                <==> self.via(p, a, mid, b),
    {
        if exists|x: int, y: int| 0 <= x < ls.len() && 0 <= y < rs.len() && p == #[trigger] joined(ls[x], rs[y]) {
            let (x, y) = choose|x: int, y: int| 0 <= x < ls.len() && 0 <= y < rs.len() && p == #[trigger] joined(ls[x], rs[y]);
            let l = ls[x];
            let q = rs[y];
            assert(ls.contains(l));
            assert(rs.contains(q));
            let k = l.len() - 1;
            assert(p == l + q.drop_first());
            assert(p.take(k + 1) =~= l);
            assert(p.skip(k) =~= q);
            assert(self.split_ok(p, k, a, mid, b));
        }
        if self.via(p, a, mid, b) {
            let k = choose|k: int| #[trigger] self.split_ok(p, k, a, mid, b);
            let l = p.take(k + 1);
            let q = p.skip(k);
            assert(ls.contains(l));
            assert(rs.contains(q));
            let x = choose|x: int| 0 <= x < ls.len() && ls[x] == l;
            let y = choose|y: int| 0 <= y < rs.len() && rs[y] == q;
            assert(joined(ls[x], rs[y]) =~= p);
        }
    }

    /// `left` followed by `right` without its first vertex (where `right`
    /// starts at the vertex `left` ends at).
    fn connect_path(left: &Vec<String>, right: &Vec<String>) -> (r: Vec<String>)
        requires
            left.len() > 0 && right.len() > 0 ==> left@[left.len() - 1]@ == right@[0]@,
        ensures
            views(r@) == joined(views(left@), views(right@)),
    {
        if left.len() == 0 {
            return copy_string_vec(right);
        }
        if right.len() == 0 {
            return copy_string_vec(left);
        }
        let mut r = copy_string_vec(left);
        let mut i: usize = 1;
        while i < right.len()
            invariant
                1 <= i <= right.len(),
                views(r@) == views(left@) + views(right@).subrange(1, i as int),
            decreases right.len() - i,
        {
            let ghost r0 = r@;
            r.push(right[i].clone());
            assert(views(r@) =~= views(r0).push(right@[i as int]@));
            assert(views(right@).subrange(1, i + 1) =~= views(right@).subrange(1, i as int).push(right@[i as int]@));
            i = i + 1;
        }
        assert(views(right@).subrange(1, right.len() as int) =~= views(right@).drop_first());
        r
    }

    /// Every path of `left` joined with every path of `right`.
    fn connect_all(left: &Vec<Vec<String>>, right: &Vec<Vec<String>>, Ghost(mid): Ghost<Seq<char>>) -> (r: Vec<
        Vec<String>,
    >)
        requires
            forall|x: int| 0 <= x < left.len() ==> (#[trigger] left@[x]).len() > 0 && left@[x]@[left@[x].len() - 1]@ == mid,
            forall|y: int| 0 <= y < right.len() ==> (#[trigger] right@[y]).len() > 0 && right@[y]@[0]@ == mid,
            forall|x: int| 0 <= x < left.len() ==> (#[trigger] nested_views(left@)[x]).no_duplicates(),
            nested_views(left@).no_duplicates(),
            nested_views(right@).no_duplicates(),
        ensures
            forall|p: Seq<Seq<char>>| #[trigger] nested_views(r@).contains(p) <==> exists|x: int, y: int|
                0 <= x < left.len() && 0 <= y < right.len() && p == #[trigger] joined(
                    nested_views(left@)[x],
                    nested_views(right@)[y],
                ),
            nested_views(r@).no_duplicates(),
    {
        let ghost ls = nested_views(left@);
        let ghost rs = nested_views(right@);
        let mut r: Vec<Vec<String>> = Vec::new();
        let mut x: usize = 0;
        while x < left.len()
            invariant
                x <= left.len(),
                ls == nested_views(left@),
                rs == nested_views(right@),
                forall|x: int| 0 <= x < left.len() ==> (#[trigger] left@[x]).len() > 0 && left@[x]@[left@[x].len() - 1]@ == mid,
                forall|y: int| 0 <= y < right.len() ==> (#[trigger] right@[y]).len() > 0 && right@[y]@[0]@ == mid,
                forall|p: Seq<Seq<char>>| #[trigger] nested_views(r@).contains(p) <==> exists|x2: int, y: int|
                    0 <= x2 < x && 0 <= y < right.len() && p == #[trigger] joined(ls[x2], rs[y]),
                forall|x: int| 0 <= x < left.len() ==> (#[trigger] ls[x]).no_duplicates(),
                ls.no_duplicates(),
                rs.no_duplicates(),
                nested_views(r@).no_duplicates(),
            decreases left.len() - x,
        {
            let mut y: usize = 0;
            while y < right.len()
                invariant
                    x < left.len(),
                    y <= right.len(),
                    ls == nested_views(left@),
                    rs == nested_views(right@),
                    forall|x: int| 0 <= x < left.len() ==> (#[trigger] left@[x]).len() > 0 && left@[x]@[left@[x].len() - 1]@ == mid,
                    forall|y: int| 0 <= y < right.len() ==> (#[trigger] right@[y]).len() > 0 && right@[y]@[0]@ == mid,
                    forall|p: Seq<Seq<char>>| #[trigger] nested_views(r@).contains(p) <==> ((exists|x2: int, y2: int|
                        0 <= x2 < x && 0 <= y2 < right.len() && p == #[trigger] joined(ls[x2], rs[y2])) || exists|y2: int|
                        0 <= y2 < y && p == #[trigger] joined(ls[x as int], rs[y2])),
                    forall|x: int| 0 <= x < left.len() ==> (#[trigger] ls[x]).no_duplicates(),
                    ls.no_duplicates(),
                    rs.no_duplicates(),
                    nested_views(r@).no_duplicates(),
                decreases right.len() - y,
            {
                let np = Self::connect_path(&left[x], &right[y]);
                let ghost rv = nested_views(r@);
                let ghost nv = views(np@);
                proof {
                    assert(nv == joined(ls[x as int], rs[y as int]));
                    if rv.contains(nv) {
                        assert(nested_views(r@).contains(nv));
                        let ex = exists|x2: int, y2: int|
                            0 <= x2 < x && 0 <= y2 < right.len() && nv == #[trigger] joined(ls[x2], rs[y2]);
                        let (x2, y2) = if ex {
                            choose|x2: int, y2: int|
                                0 <= x2 < x && 0 <= y2 < right.len() && nv == #[trigger] joined(ls[x2], rs[y2])
                        } else {
                            (x as int, choose|y2: int| 0 <= y2 < y && nv == #[trigger] joined(ls[x as int], rs[y2]))
                        };
                        assert(ls[x2] == views(left@[x2]@));
                        assert(ls[x as int] == views(left@[x as int]@));
                        assert(rs[y2] == views(right@[y2]@));
                        assert(rs[y as int] == views(right@[y as int]@));
                        lemma_joined_injective(ls[x2], rs[y2], ls[x as int], rs[y as int], mid);
                        assert(x2 == x);
                        assert(y2 == y);
                    }
                }
                r.push(np);
                proof {
                    assert(nested_views(r@) =~= rv.push(nv));
                    assert(nested_views(r@).no_duplicates()) by {
                        assert forall|i: int, j: int| 0 <= i < j < nested_views(r@).len() implies nested_views(r@)[i]
                            != nested_views(r@)[j] by {
                            if j == rv.len() {
                                assert(rv.contains(rv[i]));
                            } else {
                                assert(rv[i] != rv[j]);
                            }
                        }
                    }
                    assert forall|p: Seq<Seq<char>>| #[trigger] nested_views(r@).contains(p) <==> ((exists|x2: int, y2: int|
                        0 <= x2 < x && 0 <= y2 < right.len() && p == #[trigger] joined(ls[x2], rs[y2])) || exists|y2: int|
                        0 <= y2 < y + 1 && p == #[trigger] joined(ls[x as int], rs[y2])) by {
                        if nested_views(r@).contains(p) && !rv.contains(p) {
                            let k = choose|k: int| 0 <= k < nested_views(r@).len() && nested_views(r@)[k] == p;
                            assert(k == rv.len());
                            assert(p == joined(ls[x as int], rs[y as int]));
                        }
                        if rv.contains(p) {
                            let k = choose|k: int| 0 <= k < rv.len() && rv[k] == p;
                            assert(nested_views(r@)[k] == p);
                        }
                        if exists|y2: int| 0 <= y2 < y + 1 && p == #[trigger] joined(ls[x as int], rs[y2]) {
                            let y2 = choose|y2: int| 0 <= y2 < y + 1 && p == #[trigger] joined(ls[x as int], rs[y2]);
                            if y2 == y {
                                assert(nested_views(r@)[rv.len() as int] == p);
                            } else {
                                assert(rv.contains(p));
                            }
                        }
                    }
                }
                y = y + 1;
            }
            proof {
                assert forall|p: Seq<Seq<char>>| #[trigger] nested_views(r@).contains(p) <==> exists|x2: int, y2: int|
                    0 <= x2 < x + 1 && 0 <= y2 < right.len() && p == #[trigger] joined(ls[x2], rs[y2]) by {
                    if exists|x2: int, y2: int| 0 <= x2 < x + 1 && 0 <= y2 < right.len() && p == #[trigger] joined(ls[x2], rs[y2]) {
                        let (x2, y2) = choose|x2: int, y2: int|
                            0 <= x2 < x + 1 && 0 <= y2 < right.len() && p == #[trigger] joined(ls[x2], rs[y2]);
                        if x2 == x {
                            assert(exists|y3: int| 0 <= y3 < right.len() && p == #[trigger] joined(ls[x as int], rs[y3]));
                        } else {
                            assert(exists|x3: int, y3: int| 0 <= x3 < x && 0 <= y3 < right.len() && p == #[trigger] joined(ls[x3], rs[y3]));
                        }
                    }
                    if nested_views(r@).contains(p) {
                        if exists|y2: int| 0 <= y2 < right.len() && p == #[trigger] joined(ls[x as int], rs[y2]) {
                            let y2 = choose|y2: int| 0 <= y2 < right.len() && p == #[trigger] joined(ls[x as int], rs[y2]);
                            assert(0 <= x < x + 1 && 0 <= y2 < right.len() && p == joined(ls[x as int], rs[y2]));
                        }
                    }
                }
            }
            x = x + 1;
        }
        r
    }
    /// `p` runs from source `s` through `mid` to sink `t`, both flagged.
    pub open spec fn pipeline_pair(&self, p: Seq<Seq<char>>, s: int, t: int, mid: Seq<char>, flags: Seq<bool>) -> bool {
        &&& 0 <= s < self.ids().len()
        &&& 0 <= t < self.ids().len()
        &&& flags[s]
        &&& self.no_preds(s)
        &&& flags[t]
        &&& self.no_succs(t)
        &&& self.via(p, self.ids()[s], mid, self.ids()[t])
    }

    fn append_all(acc: &mut Vec<Vec<String>>, c: Vec<Vec<String>>)
        ensures
            nested_views(final(acc)@) == nested_views(old(acc)@) + nested_views(c@),
    {
        let ghost a0 = nested_views(acc@);
        let mut i: usize = 0;
        while i < c.len()
            invariant
                i <= c.len(),
                nested_views(acc@) == a0 + nested_views(c@).take(i as int),
            decreases c.len() - i,
        {
            let ghost av = nested_views(acc@);
            let item = copy_string_vec(&c[i]);
            acc.push(item);
            assert(nested_views(acc@) =~= av.push(views(c@[i as int]@)));
            assert(nested_views(c@).take(i + 1) =~= nested_views(c@).take(i as int).push(views(c@[i as int]@)));
            i = i + 1;
        }
        assert(nested_views(c@).take(c.len() as int) =~= nested_views(c@));
    }

    proof fn lemma_concat_contains(a: Seq<Seq<Seq<char>>>, b: Seq<Seq<Seq<char>>>, p: Seq<Seq<char>>)
        ensures
            (a + b).contains(p) <==> (a.contains(p) || b.contains(p)),
    {
        if (a + b).contains(p) {
            let k = choose|k: int| 0 <= k < (a + b).len() && (a + b)[k] == p;
            if k < a.len() {
                assert(a[k] == p);
            } else {
                assert(b[k - a.len()] == p);
            }
        }
        if a.contains(p) {
            let k = choose|k: int| 0 <= k < a.len() && a[k] == p;
            assert((a + b)[k] == p);
        }
        if b.contains(p) {
            let k = choose|k: int| 0 <= k < b.len() && b[k] == p;
            assert((a + b)[k + a.len()] == p);
        }
    }

    proof fn lemma_concat_no_dups(a: Seq<Seq<Seq<char>>>, b: Seq<Seq<Seq<char>>>)
        requires
            a.no_duplicates(),
            b.no_duplicates(),
            forall|p: Seq<Seq<char>>| a.contains(p) ==> !b.contains(p),
        ensures
            (a + b).no_duplicates(),
    {
        assert forall|i: int, j: int| 0 <= i < j < (a + b).len() implies (a + b)[i] != (a + b)[j] by {
            if j < a.len() {
                assert(a[i] != a[j]);
            } else if i >= a.len() {
                assert(b[i - a.len()] != b[j - a.len()]);
            } else {
                assert(a.contains(a[i]));
                assert(b.contains(b[j - a.len()]));
            }
        }
    }

    /// The paths between `src` and `dst`, characterized whether or not they coincide.
    fn paths_between(&self, src: usize, dst: usize) -> (r: Option<Vec<Vec<String>>>)
        requires
            self.wf(),
            src < self.ids().len(),
            dst < self.ids().len(),
        ensures
            match r {
                None => forall|q: Seq<Seq<char>>| !self.is_id_path(q, self.ids()[src as int], self.ids()[dst as int]),
                Some(ps) => nested_views(ps@).no_duplicates() && forall|q: Seq<Seq<char>>| #[trigger] nested_views(
                    ps@,
                ).contains(q) <==> self.is_id_path(q, self.ids()[src as int], self.ids()[dst as int]),
            },
    {
        assert(self.ids()[src as int] == self.names@[src as int]@);
        assert(self.ids().contains(self.ids()[src as int]));
        let r = self.find_pipeline(self.names[src].as_str(), self.names[dst].as_str());
        proof {
            let a = self.ids()[src as int];
            let b = self.ids()[dst as int];
            if a == b {
                assert(self.ids().contains(a));
                assert forall|q: Seq<Seq<char>>| #[trigger] nested_views(r.unwrap()@).contains(q) <==> self.is_id_path(q, a, b) by {
                    self.lemma_single_path(q, a);
                    if q == seq![a] {
                        assert(nested_views(r.unwrap()@)[0] == q);
                    }
                }
            }
        }
        r
    }

    /// The pipelines through the vertex named `pid`: every path that starts at
    /// a vertex without incoming edges, ends at a vertex without outgoing edges
    /// and passes `pid`, its parts before and after `pid` visiting no vertex twice.
    pub fn search_pipelines(&self, pid: &str) -> (r: Vec<Vec<String>>)
        requires
            self.wf(),
            self.ids().contains(pid@),
        ensures
            forall|p: Seq<Seq<char>>| #[trigger] nested_views(r@).contains(p) <==> self.is_pipeline(p, pid@),
            nested_views(r@).no_duplicates(),
    {
        let n = self.names.len();
        let pi = match self.index_of(pid) {
            Some(pi) => pi,
            None => {
                return Vec::new();
            },
        };
        let flags = self.component_flags(pi);
        let ghost fl = flags@;
        let mut acc: Vec<Vec<String>> = Vec::new();
        let mut s: usize = 0;
        while s < n
            invariant
                self.wf(),
                n == self.ids().len(),
                pi < n,
                self.ids()[pi as int] == pid@,
                flags@ == fl,
                fl.len() == n,
                forall|j: int| 0 <= j < n ==> fl[j] == #[trigger] self.connected(pi as int, j),
                s <= n,
                forall|p: Seq<Seq<char>>| #[trigger] nested_views(acc@).contains(p) <==> exists|s2: int, t2: int|
                    0 <= s2 < s && #[trigger] self.pipeline_pair(p, s2, t2, pid@, fl),
                nested_views(acc@).no_duplicates(),
            decreases n - s,
        {
            if flags[s] && self.no_preds_at(s) {
                let mut t: usize = 0;
                while t < n
                    invariant
                        self.wf(),
                        n == self.ids().len(),
                        pi < n,
                        s < n,
                        fl[s as int],
                        self.no_preds(s as int),
                        self.ids()[pi as int] == pid@,
                        flags@ == fl,
                        fl.len() == n,
                        t <= n,
                        forall|p: Seq<Seq<char>>| #[trigger] nested_views(acc@).contains(p) <==> ((exists|s2: int, t2: int|
                            0 <= s2 < s && #[trigger] self.pipeline_pair(p, s2, t2, pid@, fl)) || exists|t2: int|
                            0 <= t2 < t && #[trigger] self.pipeline_pair(p, s as int, t2, pid@, fl)),
                        nested_views(acc@).no_duplicates(),
                    decreases n - t,
                {
                    let ghost a0 = nested_views(acc@);
                    if flags[t] && self.no_succs_at(t) {
                        let left = self.paths_between(s, pi);
                        let right = self.paths_between(pi, t);
                        match (left, right) {
                            (Some(l), Some(rr)) => {
                                proof {
                                    assert forall|x: int| 0 <= x < l.len() implies (#[trigger] l@[x]).len() > 0 && l@[x]@[l@[x].len()
                                        - 1]@ == pid@ by {
                                        assert(nested_views(l@)[x] == views(l@[x]@));
                                        assert(nested_views(l@).contains(nested_views(l@)[x]));
                                    }
                                    assert forall|y: int| 0 <= y < rr.len() implies (#[trigger] rr@[y]).len() > 0 && rr@[y]@[0]@
                                        == pid@ by {
                                        assert(nested_views(rr@)[y] == views(rr@[y]@));
                                        assert(nested_views(rr@).contains(nested_views(rr@)[y]));
                                    }
                                }
                                proof {
                                    assert forall|x: int| 0 <= x < l.len() implies (#[trigger] nested_views(l@)[x]).no_duplicates() by {
                                        assert(nested_views(l@).contains(nested_views(l@)[x]));
                                    }
                                }
                                let c = Self::connect_all(&l, &rr, Ghost(pid@));
                                let ghost cv = nested_views(c@);
                                proof {
                                    assert forall|p: Seq<Seq<char>>| a0.contains(p) implies !cv.contains(p) by {
                                        if cv.contains(p) {
                                            self.lemma_joined_via(nested_views(l@), nested_views(rr@), p, self.ids()[s as int], pid@, self.ids()[t as int]);
                                            self.lemma_via_ends(p, self.ids()[s as int], pid@, self.ids()[t as int]);
                                            assert(nested_views(acc@).contains(p));
                                            if exists|s2: int, t2: int| 0 <= s2 < s && #[trigger] self.pipeline_pair(p, s2, t2, pid@, fl) {
                                                let (s2, t2) = choose|s2: int, t2: int| 0 <= s2 < s && #[trigger] self.pipeline_pair(p, s2, t2, pid@, fl);
                                                self.lemma_via_ends(p, self.ids()[s2], pid@, self.ids()[t2]);
                                                self.lemma_ids_distinct(s2, s as int);
                                            } else {
                                                let t2 = choose|t2: int| 0 <= t2 < t && #[trigger] self.pipeline_pair(p, s as int, t2, pid@, fl);
                                                self.lemma_via_ends(p, self.ids()[s as int], pid@, self.ids()[t2]);
                                                self.lemma_ids_distinct(t2, t as int);
                                            }
                                        }
                                    }
                                    Self::lemma_concat_no_dups(a0, cv);
                                }
                                Self::append_all(&mut acc, c);
                                proof {
                                    assert forall|p: Seq<Seq<char>>| #[trigger] cv.contains(p) <==> self.via(
                                        p,
                                        self.ids()[s as int],
                                        pid@,
                                        self.ids()[t as int],
                                    ) by {
                                        self.lemma_joined_via(nested_views(l@), nested_views(rr@), p, self.ids()[s as int], pid@, self.ids()[t as int]);
                                    }
                                    assert forall|p: Seq<Seq<char>>| #[trigger] nested_views(acc@).contains(p) <==> ((exists|s2: int, t2: int|
                                        0 <= s2 < s && #[trigger] self.pipeline_pair(p, s2, t2, pid@, fl)) || exists|t2: int|
                                        0 <= t2 < t + 1 && #[trigger] self.pipeline_pair(p, s as int, t2, pid@, fl)) by {
                                        Self::lemma_concat_contains(a0, cv, p);
                                        if cv.contains(p) {
                                            assert(self.pipeline_pair(p, s as int, t as int, pid@, fl));
                                        }
                                        if exists|t2: int| 0 <= t2 < t + 1 && #[trigger] self.pipeline_pair(p, s as int, t2, pid@, fl) {
                                            let t2 = choose|t2: int| 0 <= t2 < t + 1 && #[trigger] self.pipeline_pair(p, s as int, t2, pid@, fl);
                                            if t2 < t {
                                                assert(a0.contains(p));
                                            } else {
                                                assert(cv.contains(p));
                                            }
                                        }
                                    }
                                }
                            },
                            (None, _) => {
                                proof {
                                    assert forall|p: Seq<Seq<char>>| !#[trigger] self.pipeline_pair(p, s as int, t as int, pid@, fl) by {
                                        if self.pipeline_pair(p, s as int, t as int, pid@, fl) {
                                            let k = choose|k: int| #[trigger] self.split_ok(p, k, self.ids()[s as int], pid@, self.ids()[t as int]);
                                        }
                                    }
                                }
                            },
                            (_, None) => {
                                proof {
                                    assert forall|p: Seq<Seq<char>>| !#[trigger] self.pipeline_pair(p, s as int, t as int, pid@, fl) by {
                                        if self.pipeline_pair(p, s as int, t as int, pid@, fl) {
                                            let k = choose|k: int| #[trigger] self.split_ok(p, k, self.ids()[s as int], pid@, self.ids()[t as int]);
                                        }
                                    }
                                }
                            },
                        }
                    }
                    t = t + 1;
                }
            }
            s = s + 1;
        }
        proof {
            assert forall|p: Seq<Seq<char>>| #[trigger] nested_views(acc@).contains(p) <==> self.is_pipeline(p, pid@) by {
                if nested_views(acc@).contains(p) {
                    let (s2, t2) = choose|s2: int, t2: int| 0 <= s2 < n && #[trigger] self.pipeline_pair(p, s2, t2, pid@, fl);
                    self.lemma_via_ends(p, self.ids()[s2], pid@, self.ids()[t2]);
                }
                if self.is_pipeline(p, pid@) {
                    let s0 = choose|i: int| 0 <= i < self.ids().len() && self.ids()[i] == p[0] && self.no_preds(i);
                    let t0 = choose|i: int| 0 <= i < self.ids().len() && self.ids()[i] == p[p.len() - 1] && self.no_succs(i);
                    let k = choose|k: int| #[trigger] self.split_ok(p, k, p[0], pid@, p[p.len() - 1]);
                    self.lemma_path_connected(p.take(k + 1), s0, pi as int);
                    self.lemma_connected_symm(s0, pi as int);
                    self.lemma_path_connected(p.skip(k), pi as int, t0);
                    assert(self.split_ok(p, k, self.ids()[s0], pid@, self.ids()[t0]));
                    assert(self.pipeline_pair(p, s0, t0, pid@, fl));
                }
            }
        }
        acc
    }
    /// Whether the vertex named `vid` exists and has an incoming edge.
    pub fn has_pred(&self, vid: &str) -> (r: bool)
        requires
            self.wf(),
        ensures
            r == exists|x: Seq<char>| #[trigger] self.id_edge(x, vid@),
    {
        match self.index_of(vid) {
            Some(v) => {
                let r = !self.no_preds_at(v);
                proof {
                    if r {
                        let u = choose|u: int| #[trigger] self.edge(u, v as int);
                        assert(self.named_pair(u, v as int, self.ids()[u], vid@));
                        assert(self.id_edge(self.ids()[u], vid@));
                    } else {
                        assert forall|x: Seq<char>| !#[trigger] self.id_edge(x, vid@) by {
                            if self.id_edge(x, vid@) {
                                let (i, j) = choose|i: int, j: int| #[trigger] self.named_pair(i, j, x, vid@) && self.edge(i, j);
                                assert(j == v);
                            }
                        }
                    }
                }
                r
            },
            None => {
                proof {
                    assert forall|x: Seq<char>| !#[trigger] self.id_edge(x, vid@) by {
                        if self.id_edge(x, vid@) {
                            let (i, j) = choose|i: int, j: int| #[trigger] self.named_pair(i, j, x, vid@) && self.edge(i, j);
                            assert(self.ids().contains(self.ids()[j]));
                        }
                    }
                }
                false
            },
        }
    }

    /// The names of the vertices with an edge into the vertex named `vid`,
    /// each once, in the order the edges were added.
    pub fn upstreams_of(&self, vid: &str) -> (r: Vec<String>)
        requires
            self.wf(),
        ensures
            views(r@).no_duplicates(),
            forall|x: Seq<char>| #[trigger] views(r@).contains(x) <==> self.id_edge(x, vid@),
    {
        let mut r: Vec<String> = Vec::new();
        match self.index_of(vid) {
            Some(v) => {
                let ps = &self.preds[v];
                let mut t: usize = 0;
                while t < ps.len()
                    invariant
                        self.wf(),
                        v < self.ids().len(),
                        self.ids()[v as int] == vid@,
                        ps == &self.preds@[v as int],
                        t <= ps.len(),
                        views(r@).no_duplicates(),
                        forall|x: Seq<char>| #[trigger] views(r@).contains(x) <==> exists|m: int| 0 <= m < t && x == self.ids()[ps@[m] as int],
                    decreases ps.len() - t,
                {
                    let u = ps[t];
                    proof {
                        assert(ps@.contains(u));
                        assert(u < self.ids().len());
                    }
                    let ghost rv = views(r@);
                    r.push(self.names[u].clone());
                    proof {
                        assert(views(r@) =~= rv.push(self.ids()[u as int]));
                        assert(!rv.contains(self.ids()[u as int])) by {
                            if rv.contains(self.ids()[u as int]) {
                                let m = choose|m: int| 0 <= m < t && self.ids()[u as int] == self.ids()[ps@[m] as int];
                                assert(ps@[m] < self.ids().len());
                                assert(ps@[m] != ps@[t as int]);
                            }
                        }
                        assert forall|x: Seq<char>| #[trigger] views(r@).contains(x) <==> exists|m: int| 0 <= m < t + 1 && x == self.ids()[ps@[m] as int] by {
                            if views(r@).contains(x) && !rv.contains(x) {
                                let k = choose|k: int| 0 <= k < views(r@).len() && views(r@)[k] == x;
                                assert(k == rv.len());
                            }
                            if rv.contains(x) {
                                let k = choose|k: int| 0 <= k < rv.len() && rv[k] == x;
                                assert(views(r@)[k] == x);
                            }
                            if exists|m: int| 0 <= m < t + 1 && x == self.ids()[ps@[m] as int] {
                                let m = choose|m: int| 0 <= m < t + 1 && x == self.ids()[ps@[m] as int];
                                if m == t {
                                    assert(views(r@)[rv.len() as int] == x);
                                }
                            }
                        }
                    }
                    t = t + 1;
                }
                proof {
                    assert forall|x: Seq<char>| #[trigger] views(r@).contains(x) <==> self.id_edge(x, vid@) by {
                        if views(r@).contains(x) {
                            let m = choose|m: int| 0 <= m < ps.len() && x == self.ids()[ps@[m] as int];
                            assert(ps@.contains(ps@[m]));
                            assert(ps@[m] < self.ids().len());
                            assert(self.named_pair(ps@[m] as int, v as int, x, vid@));
                        }
                        if self.id_edge(x, vid@) {
                            let (i, j) = choose|i: int, j: int| #[trigger] self.named_pair(i, j, x, vid@) && self.edge(i, j);
                            assert(j == v);
                            assert(ps@.contains(i as usize));
                            let m = choose|m: int| 0 <= m < ps.len() && ps@[m] == i as usize;
                            assert(x == self.ids()[ps@[m] as int]);
                        }
                    }
                }
            },
            None => {
                proof {
                    assert(views(r@) =~= Seq::<Seq<char>>::empty());
                    assert forall|x: Seq<char>| #[trigger] views(r@).contains(x) <==> self.id_edge(x, vid@) by {
                        if self.id_edge(x, vid@) {
                            let (i, j) = choose|i: int, j: int| #[trigger] self.named_pair(i, j, x, vid@) && self.edge(i, j);
                            assert(self.ids().contains(self.ids()[j]));
                        }
                    }
                }
            },
        }
        r
    }
}

/// `ids` with each of `more` appended that it does not hold yet, in order.
pub open spec fn with_ids(ids: Seq<Seq<char>>, more: Seq<Seq<char>>) -> Seq<Seq<char>>
    decreases more.len(),
{
    if more.len() == 0 {
        ids
    } else {
        let base = with_ids(ids, more.drop_last());
        if base.contains(more.last()) {
            base
        } else {
            base.push(more.last())
        }
    }
}

/// What a sequence holds after a push.
pub proof fn lemma_push_contains_ids(s: Seq<Seq<char>>, x: Seq<char>, y: Seq<char>)
    ensures
        s.push(x).contains(y) <==> (s.contains(y) || y == x),
{
    if s.push(x).contains(y) {
        let k = choose|k: int| 0 <= k < s.push(x).len() && s.push(x)[k] == y;
        if k < s.len() {
            assert(s[k] == y);
        }
    }
    if s.contains(y) {
        let k = choose|k: int| 0 <= k < s.len() && s[k] == y;
        assert(s.push(x)[k] == y);
    }
    if y == x {
        assert(s.push(x)[s.len() as int] == y);
    }
}

/// The graph of a manifest's pipes: a vertex for each pipe and each upstream
/// it names, an edge from each upstream to its pipe; a pipe's vertex holds a
/// value of the caller's choosing.
pub struct PipeGraph<T> {
    graph: DirectedGraph<T>,
}

impl<T> PipeGraph<T> {
    /// The underlying graph.
    pub closed spec fn dg(&self) -> DirectedGraph<T> {
        self.graph
    }

    /// The underlying graph is consistent.
    #[verifier::type_invariant]
    spec fn graph_wf(self) -> bool {
        self.graph.wf()
    }

    /// The underlying graph is consistent (the type's invariant).
    pub fn check_wf(&self)
        ensures
            self.dg().wf(),
    {
        proof {
            use_type_invariant(self);
        }
    }

    /// An empty pipe graph.
    pub fn new() -> (g: Self)
        ensures
            g.dg().wf(),
            g.dg().ids() == Seq::<Seq<char>>::empty(),
    {
        PipeGraph { graph: DirectedGraph::new() }
    }

    /// Adds the vertex of `pipe` holding `value`, a vertex for each upstream
    /// it names, and an edge from each upstream to it.
    pub fn add_pipe(&mut self, pipe: &Pipe, value: T)
        ensures
            final(self).dg().wf(),
            final(self).dg().ids() == with_ids(old(self).dg().ids(), seq![pipe.name@] + pipe_upstreams(*pipe)),
            forall|i: int, j: int| #[trigger] final(self).dg().edge(i, j) == (old(self).dg().edge(i, j) || (0 <= i < final(self).dg().ids().len()
                && 0 <= j < final(self).dg().ids().len() && final(self).dg().ids()[j] == pipe.name@
                && pipe_upstreams(*pipe).contains(final(self).dg().ids()[i]))),
            forall|i: int| 0 <= i < final(self).dg().ids().len() ==> #[trigger] final(self).dg().value(i) == if final(self).dg().ids()[i] == pipe.name@ {
                Some(value)
            } else if i < old(self).dg().ids().len() {
                old(self).dg().value(i)
            } else {
                None
            },
    {
        proof {
            use_type_invariant(&*self);
        }
        let mut graph: DirectedGraph<T> = DirectedGraph::new();
        std::mem::swap(&mut graph, &mut self.graph);
        let ghost g0 = graph;
        let ghost all = seq![pipe.name@] + pipe_upstreams(*pipe);
        let id = pipe.get_id();
        graph.add_vertex_if_not_exists(id);
        proof {
            assert(all.take(1).drop_last() =~= Seq::<Seq<char>>::empty());
            assert(all.take(1).last() == pipe.name@);
            assert(with_ids(g0.ids(), all.take(1).drop_last()) == g0.ids());
            assert(graph.ids() == with_ids(g0.ids(), all.take(1)));
            if !g0.ids().contains(pipe.name@) {
                assert(graph.ids()[g0.ids().len() as int] == pipe.name@);
            }
        }
        graph.set_value(pipe.name.as_str(), value);
        let deps = pipe.list_dependency();
        let mut k: usize = 0;
        while k < deps.len()
            invariant
                graph.wf(),
                views(deps@) == pipe_upstreams(*pipe),
                all == seq![pipe.name@] + pipe_upstreams(*pipe),
                k <= deps.len(),
                graph.ids() == with_ids(g0.ids(), all.take(k + 1)),
                graph.ids().contains(pipe.name@),
                g0.wf(),
                g0.ids().len() <= graph.ids().len(),
                forall|i: int| 0 <= i < g0.ids().len() ==> graph.ids()[i] == g0.ids()[i],
                forall|i: int, j: int| #[trigger] graph.edge(i, j) == (g0.edge(i, j) || (0 <= i < graph.ids().len()
                    && 0 <= j < graph.ids().len() && graph.ids()[j] == pipe.name@ && views(deps@).take(
                    k as int,
                ).contains(graph.ids()[i]))),
                forall|i: int| 0 <= i < graph.ids().len() ==> #[trigger] graph.value(i) == if graph.ids()[i]
                    == pipe.name@ {
                    Some(value)
                } else if i < g0.ids().len() {
                    g0.value(i)
                } else {
                    None
                },
            decreases deps.len() - k,
        {
            let ghost g1 = graph;
            graph.add_vertex_if_not_exists(deps[k].clone());
            let ghost g2 = graph;
            graph.add_edge(deps[k].as_str(), pipe.name.as_str());
            proof {
                let d = deps@[k as int]@;
                let m = choose|m: int| 0 <= m < g1.ids().len() && g1.ids()[m] == pipe.name@;
                assert(graph.ids()[m] == pipe.name@);
                assert(all.take(k + 2).drop_last() =~= all.take(k + 1));
                assert(all.take(k + 2).last() == d);
                assert(views(deps@).take(k + 1) =~= views(deps@).take(k as int).push(d));
                assert forall|i: int, j: int| #[trigger] graph.edge(i, j) == (g0.edge(i, j) || (0 <= i
                    < graph.ids().len() && 0 <= j < graph.ids().len() && graph.ids()[j] == pipe.name@
                    && views(deps@).take(k + 1).contains(graph.ids()[i]))) by {
                    if 0 <= i < graph.ids().len() {
                        lemma_push_contains_ids(views(deps@).take(k as int), d, graph.ids()[i]);
                    }
                    if g1.edge(i, j) {
                        assert(0 <= i < g1.ids().len() && 0 <= j < g1.ids().len());
                    }
                    if g0.edge(i, j) {
                        assert(0 <= i < g0.ids().len());
                    }
                }
                assert forall|i: int| 0 <= i < graph.ids().len() implies #[trigger] graph.value(i) == if graph.ids()[i]
                    == pipe.name@ {
                    Some(value)
                } else if i < g0.ids().len() {
                    g0.value(i)
                } else {
                    None
                } by {
                    if i < g1.ids().len() {
                        assert(g2.value(i) == g1.value(i));
                    } else {
                        assert(g2.value(i) is None);
                        assert(g1.ids().contains(pipe.name@));
                        assert(graph.ids()[i] != pipe.name@) by {
                            let m = choose|m: int| 0 <= m < g1.ids().len() && g1.ids()[m] == pipe.name@;
                            assert(graph.ids()[m] == pipe.name@);
                        }
                    }
                }
            }
            k = k + 1;
        }
        proof {
            assert(all.take(deps.len() + 1) =~= all);
            assert(views(deps@).take(deps.len() as int) =~= views(deps@));
        }
        self.graph = graph;
    }
    /// Whether a vertex is named `vid`.
    pub fn has_vertex(&self, vid: &str) -> (r: bool)
        ensures
            r == self.dg().ids().contains(vid@),
    {
        proof {
            use_type_invariant(self);
        }
        self.graph.has_vertex(vid)
    }

    /// Whether a pipe named `pid` was added (not only named as an upstream).
    pub fn has_pipe(&self, pid: &str) -> (r: bool)
        ensures
            r == exists|i: int| 0 <= i < self.dg().ids().len() && self.dg().ids()[i] == pid@ && self.dg().value(i) is Some,
    {
        proof {
            use_type_invariant(self);
        }
        self.graph.get_value(pid).is_some()
    }

    /// The value held by the vertex named `vid`.
    pub fn get_value(&self, vid: &str) -> (r: Option<&T>)
        ensures
            match r {
                Some(v) => exists|i: int| 0 <= i < self.dg().ids().len() && self.dg().ids()[i] == vid@ && self.dg().value(i) == Some(*v),
                None => forall|i: int| 0 <= i < self.dg().ids().len() && self.dg().ids()[i] == vid@ ==> self.dg().value(i) is None,
            },
    {
        proof {
            use_type_invariant(self);
        }
        self.graph.get_value(vid)
    }

    /// The value held by the vertex of the pipe named `pid`.
    pub fn get_pipe_value(&self, pid: &str) -> (r: Option<&T>)
        ensures
            match r {
                Some(v) => exists|i: int| 0 <= i < self.dg().ids().len() && self.dg().ids()[i] == pid@ && self.dg().value(i) == Some(*v),
                None => forall|i: int| 0 <= i < self.dg().ids().len() && self.dg().ids()[i] == pid@ ==> self.dg().value(i) is None,
            },
    {
        proof {
            use_type_invariant(self);
        }
        self.graph.get_value(pid)
    }

    /// Whether the vertex named `pid` has an upstream.
    pub fn has_upstream_pipe(&self, pid: &str) -> (r: bool)
        ensures
            r == exists|x: Seq<char>| #[trigger] self.dg().id_edge(x, pid@),
    {
        proof {
            use_type_invariant(self);
        }
        let r = self.graph.has_pred(pid);
        proof {
            if r {
                let x = choose|x: Seq<char>| #[trigger] self.graph.id_edge(x, pid@);
                assert(self.dg().id_edge(x, pid@));
            }
        }
        r
    }

    /// The upstreams of the vertex named `pid`, each once.
    pub fn get_upstream_pipes(&self, pid: &str) -> (r: Vec<String>)
        ensures
            views(r@).no_duplicates(),
            forall|x: Seq<char>| #[trigger] views(r@).contains(x) <==> self.dg().id_edge(x, pid@),
    {
        proof {
            use_type_invariant(self);
        }
        self.graph.upstreams_of(pid)
    }

    /// The names of all vertices, in order.
    pub fn vertices(&self) -> (r: Vec<String>)
        ensures
            views(r@) == self.dg().ids(),
    {
        proof {
            use_type_invariant(self);
        }
        let n = self.graph.len();
        let mut r: Vec<String> = Vec::new();
        let mut i: usize = 0;
        while i < n
            invariant
                self.graph.wf(),
                n == self.graph.ids().len(),
                i <= n,
                views(r@) == self.graph.ids().take(i as int),
            decreases n - i,
        {
            let ghost r0 = views(r@);
            r.push(self.graph.name(i).clone());
            assert(views(r@) =~= r0.push(self.graph.ids()[i as int]));
            assert(self.graph.ids().take(i + 1) =~= self.graph.ids().take(i as int).push(self.graph.ids()[i as int]));
            i = i + 1;
        }
        assert(self.graph.ids().take(n as int) =~= self.graph.ids());
        r
    }

    /// The vertices without upstreams, in order.
    pub fn find_source_vertices(&self) -> (r: Vec<String>)
        ensures
            views(r@) == pick(self.dg().ids(), |i: int| self.dg().no_preds(i)),
    {
        proof {
            use_type_invariant(self);
        }
        self.graph.find_source_vertices()
    }

    /// The vertices without downstreams, in order.
    pub fn find_sink_vertices(&self) -> (r: Vec<String>)
        ensures
            views(r@) == pick(self.dg().ids(), |i: int| self.dg().no_succs(i)),
    {
        proof {
            use_type_invariant(self);
        }
        self.graph.find_sink_vertices()
    }

    /// The pipes without upstreams, in order.
    pub fn find_source_pipes(&self) -> (r: Vec<String>)
        ensures
            views(r@) == pick(self.dg().ids(), |i: int| self.dg().no_preds(i)),
    {
        proof {
            use_type_invariant(self);
        }
        self.graph.find_source_vertices()
    }

    /// The pipes without downstreams, in order.
    pub fn find_sink_pipes(&self) -> (r: Vec<String>)
        ensures
            views(r@) == pick(self.dg().ids(), |i: int| self.dg().no_succs(i)),
    {
        proof {
            use_type_invariant(self);
        }
        self.graph.find_sink_vertices()
    }

    /// Whether the vertex named `vid` exists and has no upstream.
    pub fn is_source_vertex(&self, vid: &str) -> (r: bool)
        ensures
            r == exists|i: int| 0 <= i < self.dg().ids().len() && self.dg().ids()[i] == vid@ && self.dg().no_preds(i),
    {
        proof {
            use_type_invariant(self);
        }
        self.graph.is_source_vertex(vid)
    }

    /// Whether the vertex named `vid` exists and has no downstream.
    pub fn is_sink_vertex(&self, vid: &str) -> (r: bool)
        ensures
            r == exists|i: int| 0 <= i < self.dg().ids().len() && self.dg().ids()[i] == vid@ && self.dg().no_succs(i),
    {
        proof {
            use_type_invariant(self);
        }
        self.graph.is_sink_vertex(vid)
    }

    /// The connected components (see `DirectedGraph::find_components`).
    pub fn find_components(&self) -> (r: Vec<Vec<String>>)
        ensures
            nested_views(r@) == self.dg().components_upto(self.dg().ids().len() as int),
            forall|c: int| 0 <= c < r.len() ==> self.dg().is_component(#[trigger] nested_views(r@)[c]),
            forall|v: int| 0 <= v < self.dg().ids().len() ==> listed_in(nested_views(r@), #[trigger] self.dg().ids()[v]),
            forall|c1: int, c2: int, v: int|
                0 <= c1 < r.len() && 0 <= c2 < r.len() && c1 != c2 && 0 <= v < self.dg().ids().len()
                    && #[trigger] nested_views(r@)[c1].contains(#[trigger] self.dg().ids()[v]) ==> !#[trigger] nested_views(
                    r@,
                )[c2].contains(self.dg().ids()[v]),
    {
        proof {
            use_type_invariant(self);
        }
        self.graph.find_components()
    }

    /// The component of the vertex named `vid`.
    pub fn find_component(&self, vid: &str) -> (r: Vec<String>)
        requires
            self.dg().ids().contains(vid@),
        ensures
            forall|i: int| 0 <= i < self.dg().ids().len() && self.dg().ids()[i] == vid@ ==> views(r@) == self.dg().component_ids(i),
    {
        proof {
            use_type_invariant(self);
        }
        self.graph.find_component(vid)
    }

    /// The vertices on or downstream of a cycle (see `DirectedGraph::find_cycle`).
    pub fn find_cycle(&self) -> (r: Vec<String>)
        ensures
            views(r@) == pick(self.dg().ids(), |i: int| self.dg().unpeelable(i)),
    {
        proof {
            use_type_invariant(self);
        }
        self.graph.find_cycle()
    }

    /// The paths from `src` to `dst` (see `DirectedGraph::find_paths`).
    pub fn find_paths(&self, src: &str, dst: &str) -> (r: Option<Vec<Vec<String>>>)
        requires
            src@ == dst@ || self.dg().ids().contains(src@),
        ensures
            src@ == dst@ ==> r is Some && nested_views(r.unwrap()@) == seq![seq![src@]],
            src@ != dst@ ==> match r {
                None => forall|q: Seq<Seq<char>>| !self.dg().is_id_path(q, src@, dst@),
                Some(ps) => ps.len() > 0 && nested_views(ps@).no_duplicates() && forall|q: Seq<Seq<char>>| #[trigger] nested_views(
                    ps@,
                ).contains(q) <==> self.dg().is_id_path(q, src@, dst@),
            },
    {
        proof {
            use_type_invariant(self);
        }
        self.graph.find_paths(src, dst)
    }

    /// The paths from `src` to `dst` (see `DirectedGraph::find_paths`).
    pub fn find_pipeline(&self, src: &str, dst: &str) -> (r: Option<Vec<Vec<String>>>)
        requires
            src@ == dst@ || self.dg().ids().contains(src@),
        ensures
            src@ == dst@ ==> r is Some && nested_views(r.unwrap()@) == seq![seq![src@]],
            src@ != dst@ ==> match r {
                None => forall|q: Seq<Seq<char>>| !self.dg().is_id_path(q, src@, dst@),
                Some(ps) => ps.len() > 0 && nested_views(ps@).no_duplicates() && forall|q: Seq<Seq<char>>| #[trigger] nested_views(
                    ps@,
                ).contains(q) <==> self.dg().is_id_path(q, src@, dst@),
            },
    {
        proof {
            use_type_invariant(self);
        }
        self.graph.find_pipeline(src, dst)
    }

    /// The pipelines through the pipe named `pid` (see
    /// `DirectedGraph::search_pipelines`).
    pub fn search_pipelines(&self, pid: &str) -> (r: Vec<Vec<String>>)
        requires
            self.dg().ids().contains(pid@),
        ensures
            forall|p: Seq<Seq<char>>| #[trigger] nested_views(r@).contains(p) <==> self.dg().is_pipeline(p, pid@),
            nested_views(r@).no_duplicates(),
    {
        proof {
            use_type_invariant(self);
        }
        self.graph.search_pipelines(pid)
    }
}

} // verus!
