//! A store of graph paths, kept for each pair of end vertices.
use crate::ops::graph::nested_views;
use crate::text::{str_eq, views};
use vstd::prelude::*;

verus! {

/// The paths stored for one pair of ends: the start, the end, the paths.
pub type PathEntry = (String, String, Vec<Vec<String>>);

/// No two entries have the same pair of ends.
pub open spec fn ends_distinct(e: Seq<PathEntry>) -> bool {
    forall|i: int, j: int|
        0 <= i < j < e.len() ==> !(#[trigger] e[i].0@ == #[trigger] e[j].0@ && e[i].1@ == e[j].1@)
}

/// Some entry has the ends `src` and `dst`.
pub open spec fn has_ends(e: Seq<PathEntry>, src: Seq<char>, dst: Seq<char>) -> bool {
    exists|i: int| 0 <= i < e.len() && #[trigger] e[i].0@ == src && e[i].1@ == dst
}

/// Paths found between pairs of vertices.
pub struct GraphPaths {
    entries: Vec<PathEntry>,
    /// The `add_path` calls made so far, as (start, end, path).
    history: Ghost<Seq<(Seq<char>, Seq<char>, Seq<Seq<char>>)>>,
}

impl GraphPaths {
    /// The entries are well formed: one per pair of ends, holding what the
    /// calls made so far leave.
    pub closed spec fn wf(&self) -> bool {
        &&& ends_distinct(self.entries@)
        &&& forall|s: Seq<char>, d: Seq<char>| #[trigger] self.paths(s, d) == paths_after(self.history@, s, d)
    }

    /// The `add_path` calls made so far, in order, as (start, end, path).
    pub closed spec fn calls(&self) -> Seq<(Seq<char>, Seq<char>, Seq<Seq<char>>)> {
        self.history@
    }

    /// The paths stored from `src` to `dst`, or `None` when none were added.
    pub closed spec fn paths(&self, src: Seq<char>, dst: Seq<char>) -> Option<Seq<Seq<Seq<char>>>> {
        if has_ends(self.entries@, src, dst) {
            let i = choose|i: int| 0 <= i < self.entries@.len() && #[trigger] self.entries@[i].0@ == src
                && self.entries@[i].1@ == dst;
            Some(nested_views(self.entries@[i].2@))
        } else {
            None
        }
    }

    /// An empty store.
    pub fn new() -> (r: Self)
        ensures
            r.wf(),
            r.calls() == Seq::<(Seq<char>, Seq<char>, Seq<Seq<char>>)>::empty(),
            forall|s: Seq<char>, d: Seq<char>| #[trigger] r.paths(s, d) is None,
    {
        GraphPaths { entries: Vec::new(), history: Ghost(Seq::empty()) }
    }

    /// The position of the entry with ends `src` and `dst`, if any.
    fn find(&self, src: &str, dst: &str) -> (r: Option<usize>)
        ensures
            match r {
                Some(i) => i < self.entries.len() && self.entries@[i as int].0@ == src@
                    && self.entries@[i as int].1@ == dst@,
                None => !has_ends(self.entries@, src@, dst@),
            },
    {
        let mut i: usize = 0;
        while i < self.entries.len()
            invariant
                i <= self.entries.len(),
                forall|k: int| 0 <= k < i ==> !(#[trigger] self.entries@[k].0@ == src@ && self.entries@[k].1@ == dst@),
            decreases self.entries.len() - i,
        {
            if str_eq(self.entries[i].0.as_str(), src) && str_eq(self.entries[i].1.as_str(), dst) {
                return Some(i);
            }
            i = i + 1;
        }
        None
    }

    /// Adds `path` after the paths already stored from `src` to `dst`; the
    /// other pairs keep theirs.
    pub fn add_path(&mut self, src: &str, dst: &str, path: Vec<String>)
        requires
            old(self).wf(),
        ensures
            final(self).wf(),
            final(self).paths(src@, dst@) == Some(
                match old(self).paths(src@, dst@) {
                    Some(p) => p,
                    None => Seq::<Seq<Seq<char>>>::empty(),
                }.push(views(path@)),
            ),
            forall|s: Seq<char>, d: Seq<char>|
                !(s == src@ && d == dst@) ==> #[trigger] final(self).paths(s, d) == old(self).paths(s, d),
            final(self).calls() == old(self).calls().push((src@, dst@, views(path@))),
    {
        let ghost e0 = self.entries@;
        let ghost call = (src@, dst@, views(path@));
        match self.find(src, dst) {
            Some(i) => {
                let mut ps = clone_paths(&self.entries[i].2);
                let ghost p0 = nested_views(ps@);
                ps.push(path);
                assert(nested_views(ps@) =~= p0.push(views(path@)));
                let entry = (String::from_str(src), String::from_str(dst), ps);
                self.entries.set(i, entry);
                proof {
                    assert(self.entries@[i as int].0@ == src@);
                    assert(self.entries@[i as int].1@ == dst@);
                    assert(has_ends(self.entries@, src@, dst@));
                    assert(e0[i as int].0@ == src@);
                    assert(has_ends(e0, src@, dst@));
                    assert forall|a: int, b: int| 0 <= a < b < self.entries@.len() implies !(
                    #[trigger] self.entries@[a].0@ == #[trigger] self.entries@[b].0@ && self.entries@[a].1@
                        == self.entries@[b].1@) by {
                        assert(e0[a].0@ == self.entries@[a].0@ && e0[a].1@ == self.entries@[a].1@);
                        assert(e0[b].0@ == self.entries@[b].0@ && e0[b].1@ == self.entries@[b].1@);
                    }
                    let j = choose|j: int| 0 <= j < self.entries@.len() && #[trigger] self.entries@[j].0@ == src@
                        && self.entries@[j].1@ == dst@;
                    assert(j == i);
                    let k = choose|k: int| 0 <= k < e0.len() && #[trigger] e0[k].0@ == src@ && e0[k].1@ == dst@;
                    assert(k == i);
                    assert forall|s: Seq<char>, d: Seq<char>| !(s == src@ && d == dst@) implies #[trigger] self.paths(s, d)
                        == old(self).paths(s, d) by {
                        if has_ends(e0, s, d) {
                            let m = choose|m: int| 0 <= m < e0.len() && #[trigger] e0[m].0@ == s && e0[m].1@ == d;
                            assert(self.entries@[m].0@ == s);
                            assert(has_ends(self.entries@, s, d));
                            let n = choose|n: int| 0 <= n < self.entries@.len() && #[trigger] self.entries@[n].0@ == s
                                && self.entries@[n].1@ == d;
                            assert(n != i);
                            assert(e0[n].0@ == s);
                        } else {
                            assert(!has_ends(self.entries@, s, d)) by {
                                if has_ends(self.entries@, s, d) {
                                    let n = choose|n: int| 0 <= n < self.entries@.len() && #[trigger] self.entries@[n].0@
                                        == s && self.entries@[n].1@ == d;
                                    assert(n != i);
                                    assert(e0[n].0@ == s);
                                }
                            }
                        }
                    }
                }
            },
            None => {
                let mut ps: Vec<Vec<String>> = Vec::new();
                ps.push(path);
                assert(nested_views(ps@) =~= Seq::<Seq<Seq<char>>>::empty().push(views(path@)));
                self.entries.push((String::from_str(src), String::from_str(dst), ps));
                proof {
                    let last = self.entries@.len() - 1;
                    assert(self.entries@[last].0@ == src@);
                    assert(has_ends(self.entries@, src@, dst@));
                    let j = choose|j: int| 0 <= j < self.entries@.len() && #[trigger] self.entries@[j].0@ == src@
                        && self.entries@[j].1@ == dst@;
                    assert(j == last) by {
                        if j != last {
                            assert(e0[j].0@ == src@);
                        }
                    }
                    assert forall|s: Seq<char>, d: Seq<char>| !(s == src@ && d == dst@) implies #[trigger] self.paths(s, d)
                        == old(self).paths(s, d) by {
                        if has_ends(e0, s, d) {
                            let m = choose|m: int| 0 <= m < e0.len() && #[trigger] e0[m].0@ == s && e0[m].1@ == d;
                            assert(self.entries@[m].0@ == s);
                            let n = choose|n: int| 0 <= n < self.entries@.len() && #[trigger] self.entries@[n].0@ == s
                                && self.entries@[n].1@ == d;
                            assert(n != last);
                            assert(e0[n].0@ == s);
                        } else {
                            assert(!has_ends(self.entries@, s, d)) by {
                                if has_ends(self.entries@, s, d) {
                                    let n = choose|n: int| 0 <= n < self.entries@.len() && #[trigger] self.entries@[n].0@
                                        == s && self.entries@[n].1@ == d;
                                    assert(n != last);
                                    assert(e0[n].0@ == s);
                                }
                            }
                        }
                    }
                }
            },
        }
        let ghost mid = *self;
        self.history = Ghost(self.history@.push(call));
        proof {
            assert(self.entries@ == mid.entries@);
            assert forall|s: Seq<char>, d: Seq<char>| #[trigger] self.paths(s, d) == mid.paths(s, d) by {}
            lemma_paths_follow_calls(*old(self), mid, old(self).history@, call);
        }
    }

    /// The paths stored from `src` to `dst`, or `None` when none were added.
    pub fn get_paths(&self, src: &str, dst: &str) -> (r: Option<Vec<Vec<String>>>)
        requires
            self.wf(),
        ensures
            match r {
                Some(p) => self.paths(src@, dst@) == Some(nested_views(p@)),
                None => self.paths(src@, dst@) is None,
            },
            match r {
                Some(p) => paths_after(self.calls(), src@, dst@) == Some(nested_views(p@)),
                None => paths_after(self.calls(), src@, dst@) is None,
            },
    {
        match self.find(src, dst) {
            Some(i) => {
                proof {
                    let j = choose|j: int| 0 <= j < self.entries@.len() && #[trigger] self.entries@[j].0@ == src@
                        && self.entries@[j].1@ == dst@;
                    assert(j == i);
                }
                Some(clone_paths(&self.entries[i].2))
            },
            None => None,
        }
    }
}

/// A copy of a list of paths.
fn clone_paths(ps: &Vec<Vec<String>>) -> (r: Vec<Vec<String>>)
    ensures
        nested_views(r@) == nested_views(ps@),
{
    let mut r: Vec<Vec<String>> = Vec::new();
    let mut i: usize = 0;
    while i < ps.len()
        invariant
            i <= ps.len(),
            nested_views(r@) == nested_views(ps@).take(i as int),
        decreases ps.len() - i,
    {
        let ghost r0 = nested_views(r@);
        r.push(crate::text::copy_strings(&ps[i]));
        assert(nested_views(r@) =~= r0.push(views(ps@[i as int]@)));
        assert(nested_views(ps@).take(i + 1) =~= nested_views(ps@).take(i as int).push(views(ps@[i as int]@)));
        i = i + 1;
    }
    assert(nested_views(ps@).take(ps.len() as int) =~= nested_views(ps@));
    r
}

/// The paths a store holds from `src` to `dst` after the calls
/// `add_path(s_k, d_k, p_k)` of `calls`, starting empty: the `p_k` whose ends
/// are `src` and `dst`, in call order, or `None` when no call had those ends.
pub open spec fn paths_after(
    calls: Seq<(Seq<char>, Seq<char>, Seq<Seq<char>>)>,
    src: Seq<char>,
    dst: Seq<char>,
) -> Option<Seq<Seq<Seq<char>>>>
    decreases calls.len(),
{
    if calls.len() == 0 {
        None
    } else {
        let before = paths_after(calls.drop_last(), src, dst);
        let c = calls.last();
        if c.0 == src && c.1 == dst {
            Some(
                match before {
                    Some(p) => p,
                    None => Seq::empty(),
                }.push(c.2),
            )
        } else {
            before
        }
    }
}

/// A store that holds what `calls` leave and then takes one more `add_path`
/// (as its contract says) holds what the longer list of calls leaves; with
/// `new` holding what no call leaves, a store built by calls holds
/// `paths_after` of them.
pub proof fn lemma_paths_follow_calls(
    g0: GraphPaths,
    g1: GraphPaths,
    calls: Seq<(Seq<char>, Seq<char>, Seq<Seq<char>>)>,
    c: (Seq<char>, Seq<char>, Seq<Seq<char>>),
)
    requires
        forall|s: Seq<char>, d: Seq<char>| #[trigger] g0.paths(s, d) == paths_after(calls, s, d),
        g1.paths(c.0, c.1) == Some(
            match g0.paths(c.0, c.1) {
                Some(p) => p,
                None => Seq::<Seq<Seq<char>>>::empty(),
            }.push(c.2),
        ),
        forall|s: Seq<char>, d: Seq<char>| !(s == c.0 && d == c.1) ==> #[trigger] g1.paths(s, d) == g0.paths(s, d),
    ensures
        forall|s: Seq<char>, d: Seq<char>| #[trigger] g1.paths(s, d) == paths_after(calls.push(c), s, d),
{
    assert forall|s: Seq<char>, d: Seq<char>| #[trigger] g1.paths(s, d) == paths_after(calls.push(c), s, d) by {
        assert(calls.push(c).drop_last() =~= calls);
        assert(g0.paths(s, d) == paths_after(calls, s, d));
    }
}

/// The paths left for `src` and `dst` by a list of calls are the paths of
/// the calls with those ends, in call order; there are none (`None`) exactly
/// when no call had those ends.
pub proof fn lemma_paths_after_calls(
    calls: Seq<(Seq<char>, Seq<char>, Seq<Seq<char>>)>,
    src: Seq<char>,
    dst: Seq<char>,
)
    ensures
        paths_after(calls, src, dst) is None <==> forall|k: int|
            0 <= k < calls.len() ==> !(#[trigger] calls[k].0 == src && calls[k].1 == dst),
        paths_after(calls, src, dst) is None ==> calls.filter(
            |c: (Seq<char>, Seq<char>, Seq<Seq<char>>)| c.0 == src && c.1 == dst,
        ).len() == 0,
        paths_after(calls, src, dst) is Some ==> paths_after(calls, src, dst).unwrap() == calls.filter(
            |c: (Seq<char>, Seq<char>, Seq<Seq<char>>)| c.0 == src && c.1 == dst,
        ).map_values(|c: (Seq<char>, Seq<char>, Seq<Seq<char>>)| c.2),
    decreases calls.len(),
{
    reveal_with_fuel(Seq::<_>::filter, 1);
    if calls.len() > 0 {
        let rest = calls.drop_last();
        lemma_paths_after_calls(rest, src, dst);
        let keep = |c: (Seq<char>, Seq<char>, Seq<Seq<char>>)| c.0 == src && c.1 == dst;
        let f = rest.filter(keep);
        assert forall|k: int| 0 <= k < rest.len() implies #[trigger] rest[k] == calls[k] by {}
        let c = calls.last();
        if keep(c) {
            assert(calls.filter(keep) == f.push(c));
            assert(f.push(c).map_values(|c: (Seq<char>, Seq<char>, Seq<Seq<char>>)| c.2) =~= f.map_values(
                |c: (Seq<char>, Seq<char>, Seq<Seq<char>>)| c.2,
            ).push(c.2));
            assert(calls[calls.len() - 1] == c);
        } else {
            assert(calls.filter(keep) == f);
            if paths_after(calls, src, dst) is None {
                assert forall|k: int| 0 <= k < calls.len() implies !(#[trigger] calls[k].0 == src && calls[k].1 == dst) by {
                    if k < rest.len() {
                        assert(rest[k] == calls[k]);
                    }
                }
            }
        }
        if f.len() == 0 && !keep(c) {
            assert(f.map_values(|c: (Seq<char>, Seq<char>, Seq<Seq<char>>)| c.2) =~= Seq::<Seq<Seq<char>>>::empty());
        }
    }
}

} // verus!
