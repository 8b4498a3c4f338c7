//! Checking the upstreams that pipes name, pipe by pipe. A name that several
//! pipes share counts with the upstreams of all of them, and with the kind of
//! the last one.
use crate::error::{copy_text, findings_view, Error};
use crate::models::constants::PIPE_ENTITY_DEPENDENCY_FIELD;
use crate::models::pipe::{contains_str, is_source_type, pipe_upstreams, Pipe};
use crate::models::{Entity, EntityAccept, VisitEntity};
use crate::ops::graph::nested_views;
use crate::ops::validate::{check, field_location, loc_field, pipe_names, pipe_sources, reported, Validate};
use crate::text::{str_eq, views};
use vstd::prelude::*;

verus! {

/// Whether the last visit named `x` was of a source pipe; `false` when no
/// visit was named `x`.
pub open spec fn last_source(ids: Seq<Seq<char>>, sources: Seq<bool>, x: Seq<char>) -> bool
    decreases ids.len(),
{
    if ids.len() == 0 {
        false
    } else if ids.last() == x {
        sources[ids.len() - 1]
    } else {
        last_source(ids.drop_last(), sources, x)
    }
}

/// The upstreams that the visits named `x` name, in visiting order.
pub open spec fn merged_deps(ids: Seq<Seq<char>>, deps: Seq<Seq<Seq<char>>>, x: Seq<char>) -> Seq<Seq<char>>
    decreases ids.len(),
{
    if ids.len() == 0 {
        Seq::empty()
    } else {
        let rest = merged_deps(ids.drop_last(), deps, x);
        if ids.last() == x {
            rest + deps[ids.len() - 1]
        } else {
            rest
        }
    }
}

/// Some upstream in `ds` is no visited name.
pub open spec fn missing_upstream(ids: Seq<Seq<char>>, ds: Seq<Seq<char>>) -> bool {
    exists|k: int| 0 <= k < ds.len() && !ids.contains(ds[k])
}

/// The finding, if any, for the pipe visited at position `i`: a source must
/// name no upstream; any other pipe must name at least one, and each one it
/// names must be a visited name.
pub open spec fn dependency_finding(
    ids: Seq<Seq<char>>,
    sources: Seq<bool>,
    deps: Seq<Seq<Seq<char>>>,
    loc: Seq<char>,
    i: int,
) -> Seq<(Seq<char>, Seq<char>)> {
    let ds = merged_deps(ids, deps, ids[i]);
    let at = loc_field(loc, i, PIPE_ENTITY_DEPENDENCY_FIELD@);
    if last_source(ids, sources, ids[i]) {
        if ds.len() > 0 {
            seq![(at, "found invalid upstream for source pipe"@)]
        } else {
            Seq::empty()
        }
    } else if ds.len() == 0 {
        seq![(at, "no upstream found for downstream pipe"@)]
    } else if missing_upstream(ids, ds) {
        seq![(at, "upstream does not exists"@)]
    } else {
        Seq::empty()
    }
}

/// The findings of the first `n` visited pipes, in order.
pub open spec fn dependency_findings(
    ids: Seq<Seq<char>>,
    sources: Seq<bool>,
    deps: Seq<Seq<Seq<char>>>,
    loc: Seq<char>,
    n: int,
) -> Seq<(Seq<char>, Seq<char>)>
    decreases n,
{
    if n <= 0 {
        Seq::empty()
    } else {
        dependency_findings(ids, sources, deps, loc, n - 1) + dependency_finding(ids, sources, deps, loc, n - 1)
    }
}

/// Whether the last visit named `x` was of a source pipe.
fn last_source_of(ids: &Vec<String>, sources: &Vec<bool>, x: &str) -> (r: bool)
    requires
        ids.len() == sources.len(),
    ensures
        r == last_source(views(ids@), sources@, x@),
{
    let ghost vs = views(ids@);
    assert(vs.take(ids.len() as int) =~= vs);
    let mut i: usize = ids.len();
    while i > 0
        invariant
            i <= ids.len(),
            ids.len() == sources.len(),
            vs == views(ids@),
            last_source(vs, sources@, x@) == last_source(vs.take(i as int), sources@, x@),
        decreases i,
    {
        assert(vs.take(i as int).drop_last() =~= vs.take(i - 1));
        assert(vs.take(i as int).last() == ids@[i - 1]@);
        if str_eq(ids[i - 1].as_str(), x) {
            return sources[i - 1];
        }
        i = i - 1;
    }
    false
}

/// The upstreams that the visits named `x` name, in visiting order.
fn merged_deps_of(ids: &Vec<String>, deps: &Vec<Vec<String>>, x: &str) -> (r: Vec<String>)
    requires
        ids.len() == deps.len(),
    ensures
        views(r@) == merged_deps(views(ids@), nested_views(deps@), x@),
{
    let ghost vs = views(ids@);
    let ghost nd = nested_views(deps@);
    let mut r: Vec<String> = Vec::new();
    let mut i: usize = 0;
    while i < ids.len()
        invariant
            i <= ids.len(),
            ids.len() == deps.len(),
            vs == views(ids@),
            nd == nested_views(deps@),
            views(r@) == merged_deps(vs.take(i as int), nd, x@),
        decreases ids.len() - i,
    {
        assert(vs.take(i + 1).drop_last() =~= vs.take(i as int));
        assert(vs.take(i + 1).last() == ids@[i as int]@);
        if str_eq(ids[i].as_str(), x) {
            let ds = &deps[i];
            let ghost r0 = views(r@);
            assert(nd[i as int] == views(ds@));
            let mut j: usize = 0;
            while j < ds.len()
                invariant
                    j <= ds.len(),
                    views(r@) == r0 + views(ds@).take(j as int),
                decreases ds.len() - j,
            {
                let ghost before = views(r@);
                r.push(ds[j].clone());
                assert(views(r@) =~= before.push(ds@[j as int]@));
                assert(views(ds@).take(j + 1) =~= views(ds@).take(j as int).push(ds@[j as int]@));
                j = j + 1;
            }
            assert(views(ds@).take(ds.len() as int) =~= views(ds@));
        }
        i = i + 1;
    }
    assert(vs.take(ids.len() as int) =~= vs);
    r
}

/// Collects, for each visited pipe, its name, whether it is a source and the
/// upstreams it names.
pub struct PipeDependencyValidator {
    pub location: String,
    pub ids: Vec<String>,
    pub sources: Vec<bool>,
    pub deps: Vec<Vec<String>>,
}

impl VisitEntity<Pipe> for PipeDependencyValidator {
    open spec fn visited(old: Self, new: Self, e: Pipe) -> bool {
        &&& new.location == old.location
        &&& views(new.ids@) == views(old.ids@).push(e.name@)
        &&& new.sources@ == old.sources@.push(is_source_type(e.ty))
        &&& nested_views(new.deps@) == nested_views(old.deps@).push(pipe_upstreams(e))
    }

    fn visit(&mut self, pipe: &Pipe) {
        let ghost v0 = views(self.ids@);
        let ghost d0 = nested_views(self.deps@);
        self.ids.push(pipe.get_id());
        self.sources.push(pipe.is_source());
        let dep = pipe.list_dependency();
        self.deps.push(dep);
        assert(views(self.ids@) =~= v0.push(pipe.name@));
        assert(nested_views(self.deps@) =~= d0.push(pipe_upstreams(*pipe)));
    }
}

impl EntityAccept<PipeDependencyValidator> for Pipe {}

/// The upstreams each pipe names, in order.
pub open spec fn pipes_upstreams(ps: Seq<Pipe>) -> Seq<Seq<Seq<char>>> {
    ps.map_values(|p: Pipe| pipe_upstreams(p))
}

impl PipeDependencyValidator {
    /// Checks the upstreams of `pipes`, found at `location` in the manifest.
    pub fn do_validate(pipes: &Vec<Pipe>, location: &str) -> (r: Result<(), Error>)
        ensures
            reported(
                r,
                dependency_findings(
                    pipe_names(pipes@),
                    pipe_sources(pipes@),
                    pipes_upstreams(pipes@),
                    location@,
                    pipes.len() as int,
                ),
            ),
    {
        let mut v = PipeDependencyValidator::new(location);
        let mut i: usize = 0;
        while i < pipes.len()
            invariant
                i <= pipes.len(),
                v.inv(),
                v.location@ == location@,
                views(v.ids@) == pipe_names(pipes@.take(i as int)),
                v.sources@ == pipe_sources(pipes@.take(i as int)),
                nested_views(v.deps@) == pipes_upstreams(pipes@.take(i as int)),
            decreases pipes.len() - i,
        {
            pipes[i].accept_entity_visitor(&mut v);
            assert(pipe_names(pipes@.take(i + 1)) =~= pipe_names(pipes@.take(i as int)).push(pipes@[i as int].name@));
            assert(pipe_sources(pipes@.take(i + 1)) =~= pipe_sources(pipes@.take(i as int)).push(
                is_source_type(pipes@[i as int].ty),
            ));
            assert(pipes_upstreams(pipes@.take(i + 1)) =~= pipes_upstreams(pipes@.take(i as int)).push(
                pipe_upstreams(pipes@[i as int]),
            ));
            i = i + 1;
        }
        assert(pipes@.take(pipes.len() as int) =~= pipes@);
        v.validate()
    }
}

impl Validate for PipeDependencyValidator {
    open spec fn is_new(&self, location: Seq<char>) -> bool {
        self.location@ == location && self.ids.len() == 0 && self.sources.len() == 0 && self.deps.len() == 0
    }

    open spec fn findings(&self) -> Seq<(Seq<char>, Seq<char>)> {
        dependency_findings(
            views(self.ids@),
            self.sources@,
            nested_views(self.deps@),
            self.location@,
            self.ids.len() as int,
        )
    }

    open spec fn inv(&self) -> bool {
        self.ids.len() == self.sources.len() && self.ids.len() == self.deps.len()
    }

    fn new(location: &str) -> (v: Self) {
        PipeDependencyValidator {
            location: copy_text(location),
            ids: Vec::new(),
            sources: Vec::new(),
            deps: Vec::new(),
        }
    }

    fn validate(&mut self) -> (r: Result<(), Error>) {
        let ghost ids = views(self.ids@);
        let ghost deps = nested_views(self.deps@);
        let mut errors: Vec<(String, String)> = Vec::new();
        let mut i: usize = 0;
        while i < self.ids.len()
            invariant
                self.inv(),
                ids == views(self.ids@),
                deps == nested_views(self.deps@),
                i <= self.ids.len(),
                findings_view(errors@) == dependency_findings(ids, self.sources@, deps, self.location@, i as int),
            decreases self.ids.len() - i,
        {
            let ghost e0 = findings_view(errors@);
            let id = self.ids[i].as_str();
            let src = last_source_of(&self.ids, &self.sources, id);
            let ds = merged_deps_of(&self.ids, &self.deps, id);
            let ghost dsv = views(ds@);
            if src {
                if ds.len() > 0 {
                    let loc = field_location(self.location.as_str(), i, PIPE_ENTITY_DEPENDENCY_FIELD);
                    errors.push((loc, copy_text("found invalid upstream for source pipe")));
                }
            } else if ds.len() == 0 {
                let loc = field_location(self.location.as_str(), i, PIPE_ENTITY_DEPENDENCY_FIELD);
                errors.push((loc, copy_text("no upstream found for downstream pipe")));
            } else {
                let mut missing = false;
                let mut k: usize = 0;
                while k < ds.len()
                    invariant
                        k <= ds.len(),
                        dsv == views(ds@),
                        ids == views(self.ids@),
                        missing == exists|m: int| 0 <= m < k && !ids.contains(#[trigger] dsv[m]),
                    decreases ds.len() - k,
                {
                    assert(dsv[k as int] == ds@[k as int]@);
                    if !contains_str(&self.ids, ds[k].as_str()) {
                        missing = true;
                    }
                    k = k + 1;
                }
                if missing {
                    let loc = field_location(self.location.as_str(), i, PIPE_ENTITY_DEPENDENCY_FIELD);
                    errors.push((loc, copy_text("upstream does not exists")));
                }
            }
            assert(findings_view(errors@) =~= e0 + dependency_finding(ids, self.sources@, deps, self.location@, i as int));
            i = i + 1;
        }
        check(&errors)
    }
}


proof fn lemma_last_source_distinct(ids: Seq<Seq<char>>, sources: Seq<bool>, i: int)
    requires
        0 <= i < ids.len(),
        forall|a: int, b: int| 0 <= a < b < ids.len() ==> ids[a] != ids[b],
    ensures
        last_source(ids, sources, ids[i]) == sources[i],
    decreases ids.len(),
{
    if i < ids.len() - 1 {
        assert(ids.last() != ids[i]);
        assert(ids.drop_last()[i] == ids[i]);
        lemma_last_source_distinct(ids.drop_last(), sources, i);
    }
}

proof fn lemma_merged_deps_absent(ids: Seq<Seq<char>>, deps: Seq<Seq<Seq<char>>>, x: Seq<char>)
    requires
        !ids.contains(x),
    ensures
        merged_deps(ids, deps, x) == Seq::<Seq<char>>::empty(),
    decreases ids.len(),
{
    if ids.len() > 0 {
        assert(ids.last() != x) by {
            if ids.last() == x {
                assert(ids.contains(ids[ids.len() - 1]));
            }
        }
        assert(!ids.drop_last().contains(x)) by {
            if ids.drop_last().contains(x) {
                let k = choose|k: int| 0 <= k < ids.drop_last().len() && ids.drop_last()[k] == x;
                assert(ids[k] == x);
            }
        }
        lemma_merged_deps_absent(ids.drop_last(), deps, x);
    }
}

proof fn lemma_merged_deps_distinct(ids: Seq<Seq<char>>, deps: Seq<Seq<Seq<char>>>, i: int)
    requires
        0 <= i < ids.len(),
        forall|a: int, b: int| 0 <= a < b < ids.len() ==> ids[a] != ids[b],
    ensures
        merged_deps(ids, deps, ids[i]) == deps[i],
    decreases ids.len(),
{
    let rest = ids.drop_last();
    if i == ids.len() - 1 {
        assert(!rest.contains(ids[i])) by {
            if rest.contains(ids[i]) {
                let k = choose|k: int| 0 <= k < rest.len() && rest[k] == ids[i];
                assert(ids[k] == ids[i]);
            }
        }
        lemma_merged_deps_absent(rest, deps, ids[i]);
        assert(Seq::<Seq<char>>::empty() + deps[i] =~= deps[i]);
    } else {
        assert(ids.last() != ids[i]);
        assert(rest[i] == ids[i]);
        lemma_merged_deps_distinct(rest, deps, i);
    }
}

proof fn lemma_findings_empty(
    ids: Seq<Seq<char>>,
    sources: Seq<bool>,
    deps: Seq<Seq<Seq<char>>>,
    loc: Seq<char>,
    n: int,
)
    requires
        0 <= n,
    ensures
        dependency_findings(ids, sources, deps, loc, n).len() == 0 <==> forall|i: int|
            0 <= i < n ==> (#[trigger] dependency_finding(ids, sources, deps, loc, i)).len() == 0,
    decreases n,
{
    if n > 0 {
        lemma_findings_empty(ids, sources, deps, loc, n - 1);
    }
}

/// With distinct pipe names, the upstream check finds nothing exactly when
/// every source pipe names no upstream, every other pipe names at least one,
/// and every upstream named is the name of a visited pipe.
pub proof fn lemma_distinct_names_checked(
    ids: Seq<Seq<char>>,
    sources: Seq<bool>,
    deps: Seq<Seq<Seq<char>>>,
    loc: Seq<char>,
)
    requires
        ids.len() == sources.len(),
        ids.len() == deps.len(),
        forall|a: int, b: int| 0 <= a < b < ids.len() ==> ids[a] != ids[b],
    ensures
        dependency_findings(ids, sources, deps, loc, ids.len() as int).len() == 0 <==> forall|i: int|
            0 <= i < ids.len() ==> if sources[i] {
                (#[trigger] deps[i]).len() == 0
            } else {
                deps[i].len() > 0 && forall|k: int| 0 <= k < deps[i].len() ==> ids.contains(deps[i][k])
            },
{
    lemma_findings_empty(ids, sources, deps, loc, ids.len() as int);
    assert forall|i: int| 0 <= i < ids.len() implies ((#[trigger] dependency_finding(ids, sources, deps, loc, i)).len() == 0
        <==> if sources[i] {
        deps[i].len() == 0
    } else {
        deps[i].len() > 0 && forall|k: int| 0 <= k < deps[i].len() ==> ids.contains(deps[i][k])
    }) by {
        lemma_last_source_distinct(ids, sources, i);
        lemma_merged_deps_distinct(ids, deps, i);
    }
    if dependency_findings(ids, sources, deps, loc, ids.len() as int).len() == 0 {
        assert forall|i: int| 0 <= i < ids.len() implies if sources[i] {
            (#[trigger] deps[i]).len() == 0
        } else {
            deps[i].len() > 0 && forall|k: int| 0 <= k < deps[i].len() ==> ids.contains(deps[i][k])
        } by {
            assert(dependency_finding(ids, sources, deps, loc, i).len() == 0);
        }
    } else {
        let i = choose|i: int| 0 <= i < ids.len() && (#[trigger] dependency_finding(ids, sources, deps, loc, i)).len() != 0;
        assert(!(if sources[i] {
            deps[i].len() == 0
        } else {
            deps[i].len() > 0 && forall|k: int| 0 <= k < deps[i].len() ==> ids.contains(deps[i][k])
        }));
    }
}

} // verus!
