//! Descriptions of a manifest: its pipes, its pipe graph (sources, sinks,
//! components and pipelines) and its objects, as lines of text.
use crate::error::{copy_text, Error};
use crate::models::app::App;
use crate::models::data::{data_ty_lit, data_ty_to_literal, object_display, Object};
use crate::models::pipe::{pipe_display, Pipe};
use crate::models::{Entity, EntityAccept, VisitEntity};
use crate::ops::graph::{nested_views, pick, with_ids, DirectedGraph, PipeGraph};
use crate::ops::validate::{
    declared, graph_of_pipes, graph_step, last_pipe, lemma_graph_of_pipes_same, lemma_graph_of_pipes_step, object_tys, pipe_names,
    pipes_vertex_ids,
};
use crate::text::{join, join_seqs, opt_view, str_eq, views};
use vstd::prelude::*;

verus! {

/// Ids joined by `sep`, after `label: ` when there is a label.
pub open spec fn ids_display(ids: Seq<Seq<char>>, sep: Seq<char>, label: Option<Seq<char>>) -> Seq<char> {
    match label {
        Some(l) => l + ": "@ + join_seqs(ids, sep),
        None => join_seqs(ids, sep),
    }
}

/// A list of ids to show, with a separator and an optional label.
pub struct EntityIdsDisplay {
    pub ids: Vec<String>,
    pub sep: String,
    pub label: Option<String>,
}

impl EntityIdsDisplay {
    /// The ids joined by the separator, after `label: `.
    pub fn to_string(&self) -> (r: String)
        ensures
            r@ == ids_display(views(self.ids@), self.sep@, opt_view(self.label)),
    {
        let lit = join(&self.ids, self.sep.as_str());
        match &self.label {
            Some(l) => {
                let mut r = copy_text(l.as_str());
                r.append(": ");
                r.append(lit.as_str());
                r
            },
            None => lit,
        }
    }
}

/// Pipe names to show: the same display as for any ids.
pub type PipeIdsDisplay = EntityIdsDisplay;

fn ids_line(ids: Vec<String>, sep: &str, label: &str) -> (r: String)
    ensures
        r@ == ids_display(views(ids@), sep@, Some(label@)),
{
    let d = EntityIdsDisplay { ids, sep: copy_text(sep), label: Some(copy_text(label)) };
    d.to_string()
}

/// The outcome is an error with message `m`.
pub open spec fn api_error_is<T>(r: Result<T, Error>, m: Seq<char>) -> bool {
    match r {
        Err(Error::Api(s)) => s@ == m,
        _ => false,
    }
}

/// `kind id not exists`.
pub open spec fn not_exists_msg(kind: Seq<char>, id: Seq<char>) -> Seq<char> {
    kind + " "@ + id + " not exists"@
}

fn not_exists(kind: &str, id: &str) -> (r: Error)
    ensures
        r matches Error::Api(s) && s@ == not_exists_msg(kind@, id@),
{
    let mut s = copy_text(kind);
    s.append(" ");
    s.append(id);
    s.append(" not exists");
    Error::Api(s)
}

/// A describer: created empty, it collects what it needs by visiting
/// entities, then describes them as lines of text.
pub trait Describe: Sized {
    /// Nothing was visited yet.
    spec fn is_new(&self) -> bool;

    /// The lines the describer gives.
    spec fn description(&self) -> Seq<Seq<char>>;

    fn new() -> (d: Self)
        ensures
            d.is_new(),
    ;

    fn describe(&self) -> (r: Vec<String>)
        ensures
            views(r@) == self.description(),
    ;
}

/// The ids of a list of (id, text) pairs.
pub open spec fn pair_ids(ps: Seq<(String, String)>) -> Seq<Seq<char>> {
    ps.map_values(|p: (String, String)| p.0@)
}

/// The text of the last pair with id `id`.
pub open spec fn last_text(ps: Seq<(String, String)>, id: Seq<char>) -> Option<Seq<char>>
    decreases ps.len(),
{
    if ps.len() == 0 {
        None
    } else if ps.last().0@ == id {
        Some(ps.last().1@)
    } else {
        last_text(ps.drop_last(), id)
    }
}

/// The ids of `ps`, each once, in the order they first come.
fn unique_ids(ps: &Vec<(String, String)>) -> (r: Vec<String>)
    ensures
        views(r@) == with_ids(Seq::empty(), pair_ids(ps@)),
{
    let ghost ids = pair_ids(ps@);
    let mut r: Vec<String> = Vec::new();
    let mut i: usize = 0;
    while i < ps.len()
        invariant
            i <= ps.len(),
            ids == pair_ids(ps@),
            views(r@) == with_ids(Seq::empty(), ids.take(i as int)),
        decreases ps.len() - i,
    {
        assert(ids.take(i + 1).drop_last() =~= ids.take(i as int));
        assert(ids.take(i + 1).last() == ps@[i as int].0@);
        if !crate::models::pipe::contains_str(&r, ps[i].0.as_str()) {
            let ghost r0 = views(r@);
            r.push(ps[i].0.clone());
            assert(views(r@) =~= r0.push(ps@[i as int].0@));
        }
        i = i + 1;
    }
    assert(ids.take(ps.len() as int) =~= ids);
    r
}

/// The text of the last pair with id `id`.
fn find_text(ps: &Vec<(String, String)>, id: &str) -> (r: Option<String>)
    ensures
        opt_view(r) == last_text(ps@, id@),
{
    let mut found: Option<String> = None;
    let mut i: usize = 0;
    while i < ps.len()
        invariant
            i <= ps.len(),
            opt_view(found) == last_text(ps@.take(i as int), id@),
        decreases ps.len() - i,
    {
        assert(ps@.take(i + 1).drop_last() =~= ps@.take(i as int));
        assert(ps@.take(i + 1).last() == ps@[i as int]);
        if str_eq(ps[i].0.as_str(), id) {
            found = Some(ps[i].1.clone());
        }
        i = i + 1;
    }
    assert(ps@.take(ps.len() as int) =~= ps@);
    found
}

/// Collects each pipe's name and description.
pub struct PipeDescriber {
    pub pipes: Vec<(String, String)>,
}

impl VisitEntity<Pipe> for PipeDescriber {
    open spec fn visited(old: Self, new: Self, e: Pipe) -> bool {
        &&& new.pipes@.len() == old.pipes@.len() + 1
        &&& forall|i: int| 0 <= i < old.pipes@.len() ==> #[trigger] new.pipes@[i] == old.pipes@[i]
        &&& new.pipes@.last().0@ == e.name@
        &&& new.pipes@.last().1@ == pipe_display(e)
    }

    fn visit(&mut self, pipe: &Pipe) {
        let id = pipe.get_id();
        let text = pipe.display();
        self.pipes.push((id, text));
    }
}

impl EntityAccept<PipeDescriber> for Pipe {}

impl Describe for PipeDescriber {
    open spec fn is_new(&self) -> bool {
        self.pipes.len() == 0
    }

    open spec fn description(&self) -> Seq<Seq<char>> {
        seq![ids_display(with_ids(Seq::empty(), pair_ids(self.pipes@)), ", "@, Some("pipe"@))]
    }

    fn new() -> (d: Self) {
        PipeDescriber { pipes: Vec::new() }
    }

    fn describe(&self) -> (r: Vec<String>) {
        self.describe_pipes()
    }
}

impl PipeDescriber {
    /// One line: `pipe: ` and the pipe names, each once.
    pub fn describe_pipes(&self) -> (r: Vec<String>)
        ensures
            views(r@) == self.description(),
    {
        let ids = unique_ids(&self.pipes);
        let line = ids_line(ids, ", ", "pipe");
        let mut r: Vec<String> = Vec::new();
        r.push(line);
        assert(views(r@) =~= self.description());
        r
    }

    /// The description of the last pipe named `pid`, or an error when there
    /// is none.
    pub fn describe_pipe(&self, pid: &str) -> (r: Result<String, Error>)
        ensures
            match last_text(self.pipes@, pid@) {
                Some(t) => r is Ok && r.unwrap()@ == t,
                None => api_error_is(r, not_exists_msg("pipe"@, pid@)),
            },
    {
        match find_text(&self.pipes, pid) {
            Some(t) => Ok(t),
            None => Err(not_exists("pipe", pid)),
        }
    }
}

/// Whether every field of `o` has its boxing and optionality filled in.
fn object_ready(o: &Object) -> (r: bool)
    ensures
        r == forall|i: int| 0 <= i < o.fields.len() ==> (#[trigger] o.fields@[i]).is_boxed is Some
            && o.fields@[i].is_optional is Some,
{
    let mut i: usize = 0;
    while i < o.fields.len()
        invariant
            i <= o.fields.len(),
            forall|k: int| 0 <= k < i ==> (#[trigger] o.fields@[k]).is_boxed is Some && o.fields@[k].is_optional is Some,
        decreases o.fields.len() - i,
    {
        if o.fields[i].is_boxed.is_none() || o.fields[i].is_optional.is_none() {
            return false;
        }
        i = i + 1;
    }
    true
}

/// The description of an object as collected: its table when every field is
/// filled in, else nothing.
pub open spec fn object_text(o: Object) -> Seq<char> {
    if forall|i: int| 0 <= i < o.fields.len() ==> (#[trigger] o.fields@[i]).is_boxed is Some && o.fields@[i].is_optional is Some {
        object_display(o)
    } else {
        Seq::empty()
    }
}

/// Collects each object's type and description.
pub struct ObjectDescriber {
    pub objects: Vec<(String, String)>,
}

impl VisitEntity<Object> for ObjectDescriber {
    open spec fn visited(old: Self, new: Self, e: Object) -> bool {
        &&& new.objects@.len() == old.objects@.len() + 1
        &&& forall|i: int| 0 <= i < old.objects@.len() ==> #[trigger] new.objects@[i] == old.objects@[i]
        &&& new.objects@.last().0@ == e.ty@
        &&& new.objects@.last().1@ == object_text(e)
    }

    fn visit(&mut self, object: &Object) {
        let id = object.get_id();
        let text = if object_ready(object) {
            object.display()
        } else {
            String::new()
        };
        self.objects.push((id, text));
    }
}

impl EntityAccept<ObjectDescriber> for Object {}

impl Describe for ObjectDescriber {
    open spec fn is_new(&self) -> bool {
        self.objects.len() == 0
    }

    open spec fn description(&self) -> Seq<Seq<char>> {
        seq![ids_display(with_ids(Seq::empty(), pair_ids(self.objects@)), ", "@, Some("objects"@))]
    }

    fn new() -> (d: Self) {
        ObjectDescriber { objects: Vec::new() }
    }

    fn describe(&self) -> (r: Vec<String>) {
        let ids = unique_ids(&self.objects);
        let line = ids_line(ids, ", ", "objects");
        let mut r: Vec<String> = Vec::new();
        r.push(line);
        assert(views(r@) =~= self.description());
        r
    }
}

impl ObjectDescriber {
    /// The description of the last object of type `oid`, or an error when
    /// there is none.
    pub fn describe_object(&self, oid: &str) -> (r: Result<String, Error>)
        ensures
            match last_text(self.objects@, oid@) {
                Some(t) => r is Ok && r.unwrap()@ == t,
                None => api_error_is(r, not_exists_msg("object"@, oid@)),
            },
    {
        match find_text(&self.objects, oid) {
            Some(t) => Ok(t),
            None => Err(not_exists("object", oid)),
        }
    }
}

/// The output type of a pipe as written in code, if it has one.
pub open spec fn output_lit(p: Pipe) -> Option<Seq<char>> {
    match p.output {
        Some(t) => Some(data_ty_lit(t)),
        None => None,
    }
}

/// The views of a list of optional texts.
pub open spec fn outputs_view(v: Seq<Option<String>>) -> Seq<Option<Seq<char>>> {
    v.map_values(|o: Option<String>| opt_view(o))
}

/// The output type recorded for the pipe named `x`: its vertex holds the
/// position of its output type in `outs`.
pub open spec fn output_of(g: DirectedGraph<usize>, outs: Seq<Option<Seq<char>>>, x: Seq<char>) -> Option<Seq<char>> {
    match g.value_of(x) {
        Some(k) => if k < outs.len() {
            outs[k as int]
        } else {
            None
        },
        None => None,
    }
}

/// A pipe name followed by its output type in brackets, when it has one.
pub open spec fn pipe_label(g: DirectedGraph<usize>, outs: Seq<Option<Seq<char>>>, x: Seq<char>) -> Seq<char> {
    match output_of(g, outs, x) {
        Some(t) => x + "("@ + t + ")"@,
        None => x,
    }
}

/// A pipeline as a line: `pipeline: ` and its labelled pipes joined by ` -> `.
pub open spec fn pipeline_line(g: DirectedGraph<usize>, outs: Seq<Option<Seq<char>>>, p: Seq<Seq<char>>) -> Seq<char> {
    ids_display(p.map_values(|x: Seq<char>| pipe_label(g, outs, x)), " -> "@, Some("pipeline"@))
}

/// The lines of the pipelines `ps`, in order.
pub open spec fn pipeline_lines(g: DirectedGraph<usize>, outs: Seq<Option<Seq<char>>>, ps: Seq<Seq<Seq<char>>>) -> Seq<Seq<char>> {
    ps.map_values(|p: Seq<Seq<char>>| pipeline_line(g, outs, p))
}

/// The description of a pipe graph: its sources, its sinks, then each of its
/// components.
pub open spec fn graph_description(g: DirectedGraph<usize>) -> Seq<Seq<char>> {
    seq![
        ids_display(pick(g.ids(), |i: int| g.no_preds(i)), ", "@, Some("source"@)),
        ids_display(pick(g.ids(), |i: int| g.no_succs(i)), ", "@, Some("sink"@)),
    ] + g.components_upto(g.ids().len() as int).map_values(|c: Seq<Seq<char>>| ids_display(c, ", "@, Some("union"@)))
}

/// Collects the pipe graph, the pipe names in visiting order and the output
/// type of each; a pipe's vertex holds its position.
pub struct PipeGraphDescriber {
    pub graph: PipeGraph<usize>,
    pub pipe_ids: Vec<String>,
    pub outputs: Vec<Option<String>>,
}

impl VisitEntity<Pipe> for PipeGraphDescriber {
    open spec fn visited(old: Self, new: Self, e: Pipe) -> bool {
        &&& graph_step(old.graph.dg(), new.graph.dg(), e, old.pipe_ids.len())
        &&& views(new.pipe_ids@) == views(old.pipe_ids@).push(e.name@)
        &&& outputs_view(new.outputs@) == outputs_view(old.outputs@).push(output_lit(e))
    }

    fn visit(&mut self, pipe: &Pipe) {
        let ghost v0 = views(self.pipe_ids@);
        let ghost o0 = outputs_view(self.outputs@);
        let pos = self.pipe_ids.len();
        self.graph.add_pipe(pipe, pos);
        self.pipe_ids.push(pipe.get_id());
        let o = match pipe.get_output_data_type() {
            Some(t) => Some(data_ty_to_literal(t)),
            None => None,
        };
        self.outputs.push(o);
        assert(views(self.pipe_ids@) =~= v0.push(pipe.name@));
        assert(outputs_view(self.outputs@) =~= o0.push(output_lit(*pipe)));
    }
}

impl EntityAccept<PipeGraphDescriber> for Pipe {}

impl Describe for PipeGraphDescriber {
    open spec fn is_new(&self) -> bool {
        &&& self.pipe_ids.len() == 0
        &&& self.outputs.len() == 0
        &&& self.graph.dg().ids().len() == 0
    }

    open spec fn description(&self) -> Seq<Seq<char>> {
        graph_description(self.graph.dg())
    }

    fn new() -> (d: Self) {
        PipeGraphDescriber { graph: PipeGraph::new(), pipe_ids: Vec::new(), outputs: Vec::new() }
    }

    fn describe(&self) -> (r: Vec<String>) {
        let g = &self.graph;
        let mut r: Vec<String> = Vec::new();
        r.push(self.describe_source_pipe_ids());
        r.push(self.describe_sink_pipe_ids());
        let cs = self.describe_pipe_components();
        let ghost r0 = views(r@);
        let mut i: usize = 0;
        while i < cs.len()
            invariant
                i <= cs.len(),
                views(r@) == r0 + views(cs@).take(i as int),
            decreases cs.len() - i,
        {
            let ghost rv = views(r@);
            r.push(cs[i].clone());
            assert(views(r@) =~= rv.push(cs@[i as int]@));
            assert(views(cs@).take(i + 1) =~= views(cs@).take(i as int).push(cs@[i as int]@));
            i = i + 1;
        }
        assert(views(cs@).take(cs.len() as int) =~= views(cs@));
        assert(views(r@) =~= self.description());
        r
    }
}

impl PipeGraphDescriber {
    /// The names of the pipes without upstreams.
    pub fn get_source_pipe_ids(&self) -> (r: Vec<String>)
        ensures
            views(r@) == pick(self.graph.dg().ids(), |i: int| self.graph.dg().no_preds(i)),
    {
        self.graph.find_source_pipes()
    }

    /// The names of the pipes without downstreams.
    pub fn get_sink_pipe_ids(&self) -> (r: Vec<String>)
        ensures
            views(r@) == pick(self.graph.dg().ids(), |i: int| self.graph.dg().no_succs(i)),
    {
        self.graph.find_sink_pipes()
    }

    /// The components of the pipe graph.
    pub fn get_pipe_components(&self) -> (r: Vec<Vec<String>>)
        ensures
            nested_views(r@) == self.graph.dg().components_upto(self.graph.dg().ids().len() as int),
    {
        self.graph.find_components()
    }

    /// The sources, to show with the label `source`.
    pub fn display_source_pipe_ids(&self) -> (r: EntityIdsDisplay)
        ensures
            views(r.ids@) == pick(self.graph.dg().ids(), |i: int| self.graph.dg().no_preds(i)),
            r.sep@ == ", "@,
            opt_view(r.label) == Some("source"@),
    {
        EntityIdsDisplay { ids: self.get_source_pipe_ids(), sep: copy_text(", "), label: Some(copy_text("source")) }
    }

    /// The sinks, to show with the label `sink`.
    pub fn display_sink_pipe_ids(&self) -> (r: EntityIdsDisplay)
        ensures
            views(r.ids@) == pick(self.graph.dg().ids(), |i: int| self.graph.dg().no_succs(i)),
            r.sep@ == ", "@,
            opt_view(r.label) == Some("sink"@),
    {
        EntityIdsDisplay { ids: self.get_sink_pipe_ids(), sep: copy_text(", "), label: Some(copy_text("sink")) }
    }

    /// Each component, to show with the label `union`.
    pub fn display_pipe_components(&self) -> (r: Vec<EntityIdsDisplay>)
        ensures
            r.len() == self.graph.dg().components_upto(self.graph.dg().ids().len() as int).len(),
            forall|c: int| 0 <= c < r.len() ==> views((#[trigger] r@[c]).ids@) == self.graph.dg().components_upto(
                self.graph.dg().ids().len() as int,
            )[c] && r@[c].sep@ == ", "@ && opt_view(r@[c].label) == Some("union"@),
    {
        let comps = self.get_pipe_components();
        let ghost cv = nested_views(comps@);
        let mut r: Vec<EntityIdsDisplay> = Vec::new();
        let mut i: usize = 0;
        while i < comps.len()
            invariant
                i <= comps.len(),
                cv == nested_views(comps@),
                r.len() == i,
                forall|c: int| 0 <= c < i ==> views((#[trigger] r@[c]).ids@) == cv[c] && r@[c].sep@ == ", "@ && opt_view(
                    r@[c].label,
                ) == Some("union"@),
            decreases comps.len() - i,
        {
            let ids = crate::ops::graph::copy_string_vec(&comps[i]);
            r.push(EntityIdsDisplay { ids, sep: copy_text(", "), label: Some(copy_text("union")) });
            i = i + 1;
        }
        r
    }

    /// The line of sources.
    pub fn describe_source_pipe_ids(&self) -> (r: String)
        ensures
            r@ == ids_display(pick(self.graph.dg().ids(), |i: int| self.graph.dg().no_preds(i)), ", "@, Some("source"@)),
    {
        self.display_source_pipe_ids().to_string()
    }

    /// The line of sinks.
    pub fn describe_sink_pipe_ids(&self) -> (r: String)
        ensures
            r@ == ids_display(pick(self.graph.dg().ids(), |i: int| self.graph.dg().no_succs(i)), ", "@, Some("sink"@)),
    {
        self.display_sink_pipe_ids().to_string()
    }

    /// A line for each component.
    pub fn describe_pipe_components(&self) -> (r: Vec<String>)
        ensures
            views(r@) == self.graph.dg().components_upto(self.graph.dg().ids().len() as int).map_values(
                |c: Seq<Seq<char>>| ids_display(c, ", "@, Some("union"@)),
            ),
    {
        let ds = self.display_pipe_components();
        let ghost cs = self.graph.dg().components_upto(self.graph.dg().ids().len() as int);
        let mut r: Vec<String> = Vec::new();
        let mut i: usize = 0;
        while i < ds.len()
            invariant
                i <= ds.len(),
                ds.len() == cs.len(),
                forall|c: int| 0 <= c < ds.len() ==> views((#[trigger] ds@[c]).ids@) == cs[c] && ds@[c].sep@ == ", "@ && opt_view(
                    ds@[c].label,
                ) == Some("union"@),
                views(r@) == cs.take(i as int).map_values(|c: Seq<Seq<char>>| ids_display(c, ", "@, Some("union"@))),
            decreases ds.len() - i,
        {
            let ghost rv = views(r@);
            let line = ds[i].to_string();
            r.push(line);
            assert(views(r@) =~= rv.push(ids_display(cs[i as int], ", "@, Some("union"@))));
            assert(cs.take(i + 1).map_values(|c: Seq<Seq<char>>| ids_display(c, ", "@, Some("union"@))) =~= cs.take(
                i as int,
            ).map_values(|c: Seq<Seq<char>>| ids_display(c, ", "@, Some("union"@))).push(ids_display(cs[i as int], ", "@, Some("union"@))));
            i = i + 1;
        }
        assert(cs.take(ds.len() as int) =~= cs);
        r
    }

    /// The output type recorded for the pipe named `pid`, if any.
    pub fn get_pipe_output_type(&self, pid: &str) -> (r: Option<String>)
        ensures
            opt_view(r) == output_of(self.graph.dg(), outputs_view(self.outputs@), pid@),
    {
        self.graph.check_wf();
        let ghost g = self.graph.dg();
        match self.graph.get_pipe_value(pid) {
            Some(k) => {
                proof {
                    let i = choose|i: int| 0 <= i < g.ids().len() && g.ids()[i] == pid@ && g.value(i) == Some(*k);
                    let j = choose|j: int| 0 <= j < g.ids().len() && g.ids()[j] == pid@;
                    g.lemma_ids_distinct(i, j);
                }
                let k = *k;
                if k < self.outputs.len() {
                    let o = crate::text::copy_opt_string(&self.outputs[k]);
                    assert(outputs_view(self.outputs@)[k as int] == opt_view(self.outputs@[k as int]));
                    o
                } else {
                    None
                }
            },
            None => {
                proof {
                    if exists|i: int| 0 <= i < g.ids().len() && g.ids()[i] == pid@ {
                        let j = choose|j: int| 0 <= j < g.ids().len() && g.ids()[j] == pid@;
                        assert(g.value(j) is None);
                    }
                }
                None
            },
        }
    }

    fn pipe_label_of(&self, x: &String) -> (r: String)
        ensures
            r@ == pipe_label(self.graph.dg(), outputs_view(self.outputs@), x@),
    {
        match self.get_pipe_output_type(x.as_str()) {
            Some(t) => {
                let mut r = x.clone();
                r.append("(");
                r.append(t.as_str());
                r.append(")");
                r
            },
            None => x.clone(),
        }
    }

    /// The pipe names of a pipeline, each followed by its output type in
    /// brackets when it has one.
    pub fn format_pipeline_with_output_type(&self, pipeline: Vec<String>) -> (r: Vec<String>)
        ensures
            views(r@) == views(pipeline@).map_values(|x: Seq<char>| pipe_label(self.graph.dg(), outputs_view(self.outputs@), x)),
    {
        let ghost g = self.graph.dg();
        let ghost outs = outputs_view(self.outputs@);
        let ghost want = views(pipeline@).map_values(|x: Seq<char>| pipe_label(g, outs, x));
        let mut r: Vec<String> = Vec::new();
        let mut i: usize = 0;
        while i < pipeline.len()
            invariant
                i <= pipeline.len(),
                g == self.graph.dg(),
                outs == outputs_view(self.outputs@),
                want == views(pipeline@).map_values(|x: Seq<char>| pipe_label(g, outs, x)),
                views(r@) == want.take(i as int),
            decreases pipeline.len() - i,
        {
            let ghost rv = views(r@);
            let l = self.pipe_label_of(&pipeline[i]);
            r.push(l);
            assert(views(r@) =~= rv.push(want[i as int]));
            assert(want.take(i + 1) =~= want.take(i as int).push(want[i as int]));
            i = i + 1;
        }
        assert(want.take(pipeline.len() as int) =~= want);
        r
    }

    /// The pipelines through the pipe named `pid`, or an error when no pipe
    /// has that name.
    pub fn get_pipelines(&self, pid: &str) -> (r: Result<Vec<Vec<String>>, Error>)
        ensures
            !declared(self.graph.dg(), pid@) ==> api_error_is(r, not_exists_msg("pipe"@, pid@)),
            declared(self.graph.dg(), pid@) ==> r is Ok && forall|p: Seq<Seq<char>>| #[trigger] nested_views(r.unwrap()@).contains(p)
                <==> self.graph.dg().is_pipeline(p, pid@),
    {
        if !self.graph.has_pipe(pid) {
            return Err(not_exists("pipe", pid));
        }
        proof {
            let i = choose|i: int| 0 <= i < self.graph.dg().ids().len() && self.graph.dg().ids()[i] == pid@ && self.graph.dg().value(i) is Some;
            assert(self.graph.dg().ids().contains(pid@));
        }
        Ok(self.graph.search_pipelines(pid))
    }

    /// The component of the pipe named `pid`, or an error when no pipe has
    /// that name.
    pub fn get_pipe_component(&self, pid: &str) -> (r: Result<Vec<String>, Error>)
        ensures
            !declared(self.graph.dg(), pid@) ==> api_error_is(r, not_exists_msg("pipe"@, pid@)),
            declared(self.graph.dg(), pid@) ==> r is Ok && forall|i: int| 0 <= i < self.graph.dg().ids().len()
                && self.graph.dg().ids()[i] == pid@ ==> views(r.unwrap()@) == self.graph.dg().component_ids(i),
    {
        if !self.graph.has_pipe(pid) {
            return Err(not_exists("pipe", pid));
        }
        proof {
            let i = choose|i: int| 0 <= i < self.graph.dg().ids().len() && self.graph.dg().ids()[i] == pid@ && self.graph.dg().value(i) is Some;
            assert(self.graph.dg().ids().contains(pid@));
        }
        Ok(self.graph.find_component(pid))
    }

    /// Each pipeline through the pipe named `pid`, to show with the label
    /// `pipeline`, or an error when no pipe has that name.
    pub fn display_pipelines(&self, pid: &str) -> (r: Result<Vec<EntityIdsDisplay>, Error>)
        ensures
            !declared(self.graph.dg(), pid@) ==> api_error_is(r, not_exists_msg("pipe"@, pid@)),
            declared(self.graph.dg(), pid@) ==> r is Ok && exists|ps: Seq<Seq<Seq<char>>>|
                (forall|p: Seq<Seq<char>>| #[trigger] ps.contains(p) <==> self.graph.dg().is_pipeline(p, pid@))
                && ps.len() == r.unwrap().len() && forall|c: int| 0 <= c < ps.len() ==> ids_display(
                views((#[trigger] r.unwrap()@[c]).ids@),
                r.unwrap()@[c].sep@,
                opt_view(r.unwrap()@[c].label),
            ) == pipeline_line(self.graph.dg(), outputs_view(self.outputs@), ps[c]),
    {
        let pipelines = match self.get_pipelines(pid) {
            Ok(ps) => ps,
            Err(e) => {
                return Err(e);
            },
        };
        let ghost g = self.graph.dg();
        let ghost outs = outputs_view(self.outputs@);
        let ghost ps = nested_views(pipelines@);
        let mut r: Vec<EntityIdsDisplay> = Vec::new();
        let mut i: usize = 0;
        while i < pipelines.len()
            invariant
                i <= pipelines.len(),
                g == self.graph.dg(),
                outs == outputs_view(self.outputs@),
                ps == nested_views(pipelines@),
                r.len() == i,
                forall|c: int| 0 <= c < i ==> ids_display(
                    views((#[trigger] r@[c]).ids@),
                    r@[c].sep@,
                    opt_view(r@[c].label),
                ) == pipeline_line(g, outs, ps[c]),
            decreases pipelines.len() - i,
        {
            let p = crate::ops::graph::copy_string_vec(&pipelines[i]);
            assert(views(p@) == ps[i as int]);
            let ids = self.format_pipeline_with_output_type(p);
            let d = EntityIdsDisplay { ids, sep: copy_text(" -> "), label: Some(copy_text("pipeline")) };
            assert(ids_display(views(d.ids@), d.sep@, opt_view(d.label)) == pipeline_line(g, outs, ps[i as int]));
            let ghost r0 = r@;
            r.push(d);
            assert forall|c: int| 0 <= c < i + 1 implies ids_display(
                views((#[trigger] r@[c]).ids@),
                r@[c].sep@,
                opt_view(r@[c].label),
            ) == pipeline_line(g, outs, ps[c]) by {
                if c < i {
                    assert(r@[c] == r0[c]);
                }
            }
            i = i + 1;
        }
        assert(ps.len() == r.len());
        Ok(r)
    }

    /// A line for each pipeline through the pipe named `pid`, or an error
    /// when no pipe has that name.
    pub fn describe_pipelines(&self, pid: &str) -> (r: Result<Vec<String>, Error>)
        ensures
            !declared(self.graph.dg(), pid@) ==> api_error_is(r, not_exists_msg("pipe"@, pid@)),
            declared(self.graph.dg(), pid@) ==> r is Ok && exists|ps: Seq<Seq<Seq<char>>>|
                (forall|p: Seq<Seq<char>>| #[trigger] ps.contains(p) <==> self.graph.dg().is_pipeline(p, pid@))
                && views(r.unwrap()@) == #[trigger] pipeline_lines(self.graph.dg(), outputs_view(self.outputs@), ps),
    {
        let ds = match self.display_pipelines(pid) {
            Ok(ds) => ds,
            Err(e) => {
                return Err(e);
            },
        };
        let ghost g = self.graph.dg();
        let ghost outs = outputs_view(self.outputs@);
        let ghost ps = choose|ps: Seq<Seq<Seq<char>>>|
            (forall|p: Seq<Seq<char>>| #[trigger] ps.contains(p) <==> g.is_pipeline(p, pid@)) && ps.len() == ds.len()
                && forall|c: int| 0 <= c < ps.len() ==> ids_display(
                views((#[trigger] ds@[c]).ids@),
                ds@[c].sep@,
                opt_view(ds@[c].label),
            ) == pipeline_line(g, outs, ps[c]);
        let ghost want = pipeline_lines(g, outs, ps);
        let mut r: Vec<String> = Vec::new();
        let mut i: usize = 0;
        while i < ds.len()
            invariant
                i <= ds.len(),
                ps.len() == ds.len(),
                forall|c: int| 0 <= c < ps.len() ==> ids_display(
                    views((#[trigger] ds@[c]).ids@),
                    ds@[c].sep@,
                    opt_view(ds@[c].label),
                ) == pipeline_line(g, outs, ps[c]),
                want == pipeline_lines(g, outs, ps),
                views(r@) == want.take(i as int),
            decreases ds.len() - i,
        {
            let ghost rv = views(r@);
            let line = ds[i].to_string();
            r.push(line);
            assert(views(r@) =~= rv.push(want[i as int]));
            assert(want.take(i + 1) =~= want.take(i as int).push(want[i as int]));
            i = i + 1;
        }
        assert(want.take(ds.len() as int) =~= want);
        Ok(r)
    }
}

/// The output types of the pipes `ps`, as code.
pub open spec fn pipe_output_lits(ps: Seq<Pipe>) -> Seq<Option<Seq<char>>> {
    ps.map_values(|p: Pipe| output_lit(p))
}

/// The position of the last object of `os` of type `x`.
pub open spec fn last_object(os: Seq<Object>, x: Seq<char>) -> Option<usize>
    decreases os.len(),
{
    if os.len() == 0 {
        None
    } else if os.last().ty@ == x {
        Some((os.len() - 1) as usize)
    } else {
        last_object(os.drop_last(), x)
    }
}

proof fn lemma_last_text_pipes(pairs: Seq<(String, String)>, ps: Seq<Pipe>, id: Seq<char>)
    requires
        pairs.len() == ps.len(),
        ps.len() <= usize::MAX,
        forall|k: int| 0 <= k < ps.len() ==> (#[trigger] pairs[k]).0@ == ps[k].name@ && pairs[k].1@ == pipe_display(ps[k]),
    ensures
        last_text(pairs, id) == match last_pipe(ps, id) {
            Some(k) => Some(pipe_display(ps[k as int])),
            None => None,
        },
    decreases ps.len(),
{
    if ps.len() > 0 {
        assert forall|k: int| 0 <= k < ps.drop_last().len() implies (#[trigger] pairs.drop_last()[k]).0@ == ps.drop_last()[k].name@
            && pairs.drop_last()[k].1@ == pipe_display(ps.drop_last()[k]) by {
            assert(pairs.drop_last()[k] == pairs[k]);
            assert(ps.drop_last()[k] == ps[k]);
        }
        lemma_last_text_pipes(pairs.drop_last(), ps.drop_last(), id);
        assert(pairs[pairs.len() - 1].0@ == ps[ps.len() - 1].name@);
        if let Some(k) = last_pipe(ps.drop_last(), id) {
            if ps.last().name@ != id {
                crate::ops::validate::lemma_last_pipe_bound(ps.drop_last(), id);
                assert(ps.drop_last()[k as int] == ps[k as int]);
            }
        }
    }
}

proof fn lemma_last_text_objects(pairs: Seq<(String, String)>, os: Seq<Object>, id: Seq<char>)
    requires
        pairs.len() == os.len(),
        os.len() <= usize::MAX,
        forall|k: int| 0 <= k < os.len() ==> (#[trigger] pairs[k]).0@ == os[k].ty@ && pairs[k].1@ == object_text(os[k]),
    ensures
        last_text(pairs, id) == match last_object(os, id) {
            Some(k) => Some(object_text(os[k as int])),
            None => None,
        },
    decreases os.len(),
{
    if os.len() > 0 {
        assert forall|k: int| 0 <= k < os.drop_last().len() implies (#[trigger] pairs.drop_last()[k]).0@ == os.drop_last()[k].ty@
            && pairs.drop_last()[k].1@ == object_text(os.drop_last()[k]) by {
            assert(pairs.drop_last()[k] == pairs[k]);
            assert(os.drop_last()[k] == os[k]);
        }
        lemma_last_text_objects(pairs.drop_last(), os.drop_last(), id);
        assert(pairs[pairs.len() - 1].0@ == os[os.len() - 1].ty@);
        if let Some(k) = last_object(os.drop_last(), id) {
            if os.last().ty@ != id {
                lemma_last_object_bound(os.drop_last(), id);
                assert(os.drop_last()[k as int] == os[k as int]);
            }
        }
    }
}

proof fn lemma_last_object_bound(os: Seq<Object>, x: Seq<char>)
    requires
        os.len() <= usize::MAX,
    ensures
        match last_object(os, x) {
            Some(k) => k < os.len(),
            None => true,
        },
    decreases os.len(),
{
    if os.len() > 0 {
        lemma_last_object_bound(os.drop_last(), x);
    }
}

/// Describes an application: its pipes, its pipe graph and its objects.
pub struct AppDescriber {}

impl AppDescriber {
    /// A describer.
    pub fn new() -> (r: Self) {
        AppDescriber {}
    }

    fn init_pipe_describer(app: &App) -> (d: PipeDescriber)
        ensures
            d.pipes.len() == app.pipes.len(),
            forall|k: int| 0 <= k < app.pipes.len() ==> (#[trigger] d.pipes@[k]).0@ == app.pipes@[k].name@
                && d.pipes@[k].1@ == pipe_display(app.pipes@[k]),
    {
        let pipes = app.get_pipes();
        let mut d = PipeDescriber::new();
        let mut i: usize = 0;
        while i < pipes.len()
            invariant
                i <= pipes.len(),
                pipes@ == app.pipes@,
                d.pipes.len() == i,
                forall|k: int| 0 <= k < i ==> (#[trigger] d.pipes@[k]).0@ == app.pipes@[k].name@
                    && d.pipes@[k].1@ == pipe_display(app.pipes@[k]),
            decreases pipes.len() - i,
        {
            pipes[i].accept_entity_visitor(&mut d);
            i = i + 1;
        }
        d
    }

    fn init_graph_describer(app: &App) -> (d: PipeGraphDescriber)
        ensures
            graph_of_pipes(d.graph.dg(), app.pipes@),
            outputs_view(d.outputs@) == pipe_output_lits(app.pipes@),
    {
        let pipes = app.get_pipes();
        let ghost ps = pipes@;
        let mut d = PipeGraphDescriber::new();
        d.graph.check_wf();
        proof {
            assert(pipes_vertex_ids(ps.take(0)) =~= d.graph.dg().ids());
            assert(outputs_view(d.outputs@) =~= pipe_output_lits(ps.take(0)));
        }
        let mut i: usize = 0;
        while i < pipes.len()
            invariant
                i <= pipes.len(),
                ps == pipes@,
                d.pipe_ids.len() == i,
                graph_of_pipes(d.graph.dg(), ps.take(i as int)),
                outputs_view(d.outputs@) == pipe_output_lits(ps.take(i as int)),
            decreases pipes.len() - i,
        {
            let ghost g0 = d.graph.dg();
            let ghost v0 = views(d.pipe_ids@);
            pipes[i].accept_entity_visitor(&mut d);
            proof {
                assert(views(d.pipe_ids@).len() == v0.len() + 1);
                assert(ps.take(i + 1) =~= ps.take(i as int).push(ps[i as int]));
                lemma_graph_of_pipes_step(g0, d.graph.dg(), ps.take(i as int), ps[i as int]);
                assert(pipe_output_lits(ps.take(i + 1)) =~= pipe_output_lits(ps.take(i as int)).push(output_lit(ps[i as int])));
            }
            i = i + 1;
        }
        assert(ps.take(pipes.len() as int) =~= ps);
        d
    }

    fn init_object_describer(app: &App) -> (d: ObjectDescriber)
        requires
            app.objects is Some,
        ensures
            d.objects.len() == app.objects.unwrap().len(),
            forall|k: int| 0 <= k < app.objects.unwrap().len() ==> (#[trigger] d.objects@[k]).0@ == app.objects.unwrap()@[k].ty@
                && d.objects@[k].1@ == object_text(app.objects.unwrap()@[k]),
    {
        let objects = app.get_objects();
        let mut d = ObjectDescriber::new();
        let mut i: usize = 0;
        while i < objects.len()
            invariant
                i <= objects.len(),
                objects@ == app.objects.unwrap()@,
                d.objects.len() == i,
                forall|k: int| 0 <= k < i ==> (#[trigger] d.objects@[k]).0@ == app.objects.unwrap()@[k].ty@
                    && d.objects@[k].1@ == object_text(app.objects.unwrap()@[k]),
            decreases objects.len() - i,
        {
            objects[i].accept_entity_visitor(&mut d);
            i = i + 1;
        }
        d
    }

    /// One line: `pipe: ` and the pipe names, each once.
    pub fn describe_pipes(&self, app: &App) -> (r: Vec<String>)
        ensures
            views(r@) == seq![ids_display(with_ids(Seq::empty(), pipe_names(app.pipes@)), ", "@, Some("pipe"@))],
    {
        let d = Self::init_pipe_describer(app);
        assert(pair_ids(d.pipes@) =~= pipe_names(app.pipes@));
        d.describe_pipes()
    }

    /// The description of the last pipe named `pid`, or an error when there
    /// is none.
    pub fn describe_pipe(&self, app: &App, pid: &str) -> (r: Result<String, Error>)
        ensures
            match last_pipe(app.pipes@, pid@) {
                Some(k) => r is Ok && r.unwrap()@ == pipe_display(app.pipes@[k as int]),
                None => api_error_is(r, not_exists_msg("pipe"@, pid@)),
            },
    {
        let d = Self::init_pipe_describer(app);
        proof {
            lemma_last_text_pipes(d.pipes@, app.pipes@, pid@);
        }
        d.describe_pipe(pid)
    }

    /// The sources, the sinks and the components of the pipe graph.
    pub fn describe_pipe_graph(&self, app: &App) -> (r: Vec<String>)
        ensures
            forall|g: DirectedGraph<usize>| graph_of_pipes(g, app.pipes@) ==> views(r@) == #[trigger] graph_description(g),
    {
        let d = Self::init_graph_describer(app);
        let r = d.describe();
        proof {
            assert forall|g: DirectedGraph<usize>| graph_of_pipes(g, app.pipes@) implies views(r@) == #[trigger] graph_description(g) by {
                let g0 = d.graph.dg();
                lemma_graph_of_pipes_same(g0, g, app.pipes@);
                g0.lemma_same_shape_paths(&g);
                assert((|i: int| g0.no_preds(i)) =~= (|i: int| g.no_preds(i)));
                assert((|i: int| g0.no_succs(i)) =~= (|i: int| g.no_succs(i)));
            }
        }
        r
    }

    /// A line for each pipeline through the pipe named `pid`, or an error
    /// when no pipe has that name.
    pub fn describe_pipelines(&self, app: &App, pid: &str) -> (r: Result<Vec<String>, Error>)
        ensures
            forall|g: DirectedGraph<usize>| #[trigger] graph_of_pipes(g, app.pipes@) ==> {
                &&& !declared(g, pid@) ==> api_error_is(r, not_exists_msg("pipe"@, pid@))
                &&& declared(g, pid@) ==> r is Ok && exists|ps: Seq<Seq<Seq<char>>>|
                    (forall|p: Seq<Seq<char>>| #[trigger] ps.contains(p) <==> g.is_pipeline(p, pid@)) && views(r.unwrap()@)
                        == #[trigger] pipeline_lines(g, pipe_output_lits(app.pipes@), ps)
            },
    {
        let d = Self::init_graph_describer(app);
        let r = d.describe_pipelines(pid);
        proof {
            assert forall|g: DirectedGraph<usize>| #[trigger] graph_of_pipes(g, app.pipes@) implies {
                &&& !declared(g, pid@) ==> api_error_is(r, not_exists_msg("pipe"@, pid@))
                &&& declared(g, pid@) ==> r is Ok && exists|ps: Seq<Seq<Seq<char>>>|
                    (forall|p: Seq<Seq<char>>| #[trigger] ps.contains(p) <==> g.is_pipeline(p, pid@)) && views(r.unwrap()@)
                        == #[trigger] pipeline_lines(g, pipe_output_lits(app.pipes@), ps)
            } by {
                let g0 = d.graph.dg();
                lemma_graph_of_pipes_same(g0, g, app.pipes@);
                g0.lemma_same_shape_paths(&g);
                assert(declared(g0, pid@) == declared(g, pid@));
                if declared(g, pid@) {
                    let outs = pipe_output_lits(app.pipes@);
                    let ps = choose|ps: Seq<Seq<Seq<char>>>|
                        (forall|p: Seq<Seq<char>>| #[trigger] ps.contains(p) <==> g0.is_pipeline(p, pid@)) && views(r.unwrap()@)
                            == #[trigger] pipeline_lines(g0, outs, ps);
                    assert((|x: Seq<char>| pipe_label(g0, outs, x)) =~= (|x: Seq<char>| pipe_label(g, outs, x)));
                    assert(pipeline_lines(g0, outs, ps) =~= pipeline_lines(g, outs, ps));
                    assert(forall|p: Seq<Seq<char>>| #[trigger] ps.contains(p) <==> g.is_pipeline(p, pid@));
                }
            }
        }
        r
    }

    /// The component of the pipe named `pid`, or an error when no pipe has
    /// that name.
    pub fn get_pipe_component(&self, app: &App, pid: &str) -> (r: Result<Vec<String>, Error>)
        ensures
            forall|g: DirectedGraph<usize>| #[trigger] graph_of_pipes(g, app.pipes@) ==> {
                &&& !declared(g, pid@) ==> api_error_is(r, not_exists_msg("pipe"@, pid@))
                &&& declared(g, pid@) ==> r is Ok && forall|i: int|
                    0 <= i < g.ids().len() && g.ids()[i] == pid@ ==> views(r.unwrap()@) == #[trigger] g.component_ids(i)
            },
    {
        let d = Self::init_graph_describer(app);
        let r = d.get_pipe_component(pid);
        proof {
            assert forall|g: DirectedGraph<usize>| #[trigger] graph_of_pipes(g, app.pipes@) implies {
                &&& !declared(g, pid@) ==> api_error_is(r, not_exists_msg("pipe"@, pid@))
                &&& declared(g, pid@) ==> r is Ok && forall|i: int|
                    0 <= i < g.ids().len() && g.ids()[i] == pid@ ==> views(r.unwrap()@) == #[trigger] g.component_ids(i)
            } by {
                let g0 = d.graph.dg();
                lemma_graph_of_pipes_same(g0, g, app.pipes@);
                g0.lemma_same_shape_paths(&g);
                assert(declared(g0, pid@) == declared(g, pid@));
                if declared(g, pid@) {
                    assert forall|i: int| 0 <= i < g.ids().len() && g.ids()[i] == pid@ implies views(r.unwrap()@)
                        == #[trigger] g.component_ids(i) by {
                        assert(g0.ids()[i] == pid@);
                        assert(g0.component_ids(i) == g.component_ids(i));
                    }
                }
            }
        }
        r
    }

    /// One line: `objects: ` and the object types, each once.
    pub fn describe_objects(&self, app: &App) -> (r: Vec<String>)
        requires
            app.objects is Some,
        ensures
            views(r@) == seq![ids_display(with_ids(Seq::empty(), object_tys(app.objects.unwrap()@)), ", "@, Some("objects"@))],
    {
        let d = Self::init_object_describer(app);
        assert(pair_ids(d.objects@) =~= object_tys(app.objects.unwrap()@));
        d.describe()
    }

    /// The description of the last object of type `oid`, or an error when
    /// there is none.
    pub fn describe_object(&self, app: &App, oid: &str) -> (r: Result<String, Error>)
        requires
            app.objects is Some,
        ensures
            match last_object(app.objects.unwrap()@, oid@) {
                Some(k) => r is Ok && r.unwrap()@ == object_text(app.objects.unwrap()@[k as int]),
                None => api_error_is(r, not_exists_msg("object"@, oid@)),
            },
    {
        let d = Self::init_object_describer(app);
        proof {
            lemma_last_text_objects(d.objects@, app.objects.unwrap()@, oid@);
        }
        d.describe_object(oid)
    }

    /// The application described: the line of its pipes.
    pub fn describe(&self, app: &App) -> (r: Vec<String>)
        ensures
            views(r@) == seq![ids_display(with_ids(Seq::empty(), pipe_names(app.pipes@)), ", "@, Some("pipe"@))],
    {
        self.describe_pipes(app)
    }
}

} // verus!
