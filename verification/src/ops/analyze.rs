//! A summary of the pipe graph: its sources, its sinks and its connected
//! parts, each pipe shown by the position at which it was visited, then the
//! list of pipes by position.
use crate::models::app::App;
use crate::models::pipe::{contains_str, Pipe};
use crate::models::{EntityAccept, VisitEntity};
use crate::ops::graph::{lemma_pick_contains, nested_views, pick, DirectedGraph, PipeGraph};
use crate::ops::validate::{
    graph_of_pipes, graph_step, lemma_graph_of_pipes_same, lemma_graph_of_pipes_step, lemma_last_pipe,
    lemma_pipes_vertex_ids, lemma_valid_pipes, pipe_names, pipes_edge, pipes_findings, pos_of, position,
};
use crate::text::{decimal, join, join_seqs, str_eq, usize_to_string, views};
use vstd::prelude::*;

verus! {

/// `label: a, b, c` and a line break.
pub open spec fn vertices_line(label: Seq<char>, items: Seq<Seq<char>>) -> Seq<char> {
    label + ": "@ + join_seqs(items, ", "@) + "\n"@
}

/// The visiting positions of the names `xs`, as text.
pub open spec fn orders_of(index: Seq<Seq<char>>, xs: Seq<Seq<char>>) -> Seq<Seq<char>> {
    xs.map_values(|x: Seq<char>| decimal(pos_of(index, x) as nat))
}

/// The line of a connected part, labelled by the position of its first vertex.
pub open spec fn union_line(index: Seq<Seq<char>>, comp: Seq<Seq<char>>) -> Seq<char> {
    vertices_line("union "@ + decimal(pos_of(index, comp[0]) as nat), orders_of(index, comp))
}

/// `k: name` for the pipe visited at position `k`.
pub open spec fn order_line(index: Seq<Seq<char>>, k: int) -> Seq<char> {
    decimal(k as nat) + ": "@ + index[k]
}

/// The pipes by position, one per line.
pub open spec fn order_text(index: Seq<Seq<char>>) -> Seq<char> {
    join_seqs(Seq::new(index.len(), |k: int| order_line(index, k)), "\n"@)
}

/// The parts of the summary of graph `g` whose pipes were visited in the
/// order `index`: the sources, the sinks, an empty line, a line for each
/// connected part, an empty line, and the pipes by position.
pub open spec fn analysis_parts(g: DirectedGraph<usize>, index: Seq<Seq<char>>) -> Seq<Seq<char>> {
    seq![
        vertices_line("source"@, orders_of(index, pick(g.ids(), |i: int| g.no_preds(i)))),
        vertices_line("sink"@, orders_of(index, pick(g.ids(), |i: int| g.no_succs(i)))),
        "\n"@,
    ] + g.components_upto(g.ids().len() as int).map_values(|c: Seq<Seq<char>>| union_line(index, c)) + seq![
        "\n"@,
        order_text(index),
    ]
}

/// No name comes twice.
pub open spec fn names_distinct(s: Seq<Seq<char>>) -> bool {
    forall|i: int, j: int| 0 <= i < j < s.len() ==> s[i] != s[j]
}

/// The summary can be made: the pipe names are distinct and every vertex of
/// the graph is the name of a visited pipe.
pub open spec fn analyzable(g: DirectedGraph<usize>, index: Seq<Seq<char>>) -> bool {
    &&& names_distinct(index)
    &&& forall|v: int| 0 <= v < g.ids().len() ==> index.contains(#[trigger] g.ids()[v])
}

proof fn lemma_pos_of_contains(s: Seq<Seq<char>>, x: Seq<char>)
    requires
        s.contains(x),
    ensures
        0 <= pos_of(s, x) < s.len(),
    decreases s.len(),
{
    if s[0] != x {
        let k = choose|k: int| 0 <= k < s.len() && s[k] == x;
        assert(s.drop_first()[k - 1] == x);
        lemma_pos_of_contains(s.drop_first(), x);
    }
}

/// An analysis: made fresh, fed by visiting entities, then run once it is
/// ready; its result is the text of its parts.
pub trait Analyze<T>: Sized {
    /// Nothing was visited yet.
    spec fn fresh(&self) -> bool;

    /// What was visited can be analysed.
    spec fn ready(&self) -> bool;

    /// The parts the analysis produces from what was visited.
    spec fn summary(&self) -> Seq<Seq<char>>;

    /// The parts produced so far.
    spec fn results(&self) -> Seq<Seq<char>>;

    fn new() -> (r: Self)
        ensures
            r.fresh(),
    ;

    fn analyze(&mut self)
        requires
            old(self).ready(),
        ensures
            final(self).results() == old(self).summary(),
    ;

    fn get_result(&self) -> (r: String)
        ensures
            r@ == join_seqs(self.results(), ""@),
    ;
}

/// Collects the pipe graph and the pipe names in visiting order.
pub struct PipeGraphAnalyzer {
    graph: PipeGraph<usize>,
    index: Vec<String>,
    results: Vec<String>,
}

impl PipeGraphAnalyzer {
    /// The graph of the visited pipes.
    pub closed spec fn graph_view(&self) -> DirectedGraph<usize> {
        self.graph.dg()
    }

    /// The names of the visited pipes, in order.
    pub closed spec fn names(&self) -> Seq<Seq<char>> {
        views(self.index@)
    }

    /// Whether the summary can be made, see [`analyzable`].
    pub fn is_ready(&self) -> (r: bool)
        ensures
            r == analyzable(self.graph_view(), self.names()),
    {
        let ghost ix = views(self.index@);
        let mut i: usize = 0;
        while i < self.index.len()
            invariant
                ix == views(self.index@),
                i <= self.index.len(),
                forall|a: int, b: int| 0 <= a < b < self.index.len() && a < i ==> ix[a] != ix[b],
            decreases self.index.len() - i,
        {
            let mut j: usize = i + 1;
            while j < self.index.len()
                invariant
                    ix == views(self.index@),
                    i < j <= self.index.len(),
                    forall|a: int, b: int| 0 <= a < b < self.index.len() && a < i ==> ix[a] != ix[b],
                    forall|b: int| i < b < j ==> ix[i as int] != ix[b],
                decreases self.index.len() - j,
            {
                if str_eq(self.index[i].as_str(), self.index[j].as_str()) {
                    assert(ix[i as int] == ix[j as int]);
                    return false;
                }
                j = j + 1;
            }
            i = i + 1;
        }
        let vs = self.graph.vertices();
        let mut k: usize = 0;
        while k < vs.len()
            invariant
                ix == views(self.index@),
                names_distinct(ix),
                views(vs@) == self.graph.dg().ids(),
                k <= vs.len(),
                forall|v: int| 0 <= v < k ==> ix.contains(#[trigger] self.graph.dg().ids()[v]),
            decreases vs.len() - k,
        {
            if !contains_str(&self.index, vs[k].as_str()) {
                assert(views(vs@)[k as int] == vs@[k as int]@);
                return false;
            }
            k = k + 1;
        }
        true
    }

    /// `label: ` and the positions of `vertices`, each a visited name.
    fn show_vertices(&self, label: &str, vertices: &Vec<String>) -> (r: String)
        requires
            forall|k: int| 0 <= k < vertices.len() ==> views(self.index@).contains(#[trigger] views(vertices@)[k]),
        ensures
            r@ == vertices_line(label@, orders_of(views(self.index@), views(vertices@))),
    {
        let ghost ix = views(self.index@);
        let ghost want = orders_of(ix, views(vertices@));
        let mut orders: Vec<String> = Vec::new();
        let mut k: usize = 0;
        while k < vertices.len()
            invariant
                ix == views(self.index@),
                want == orders_of(ix, views(vertices@)),
                forall|m: int| 0 <= m < vertices.len() ==> ix.contains(#[trigger] views(vertices@)[m]),
                k <= vertices.len(),
                views(orders@) == want.take(k as int),
            decreases vertices.len() - k,
        {
            let ghost x = views(vertices@)[k as int];
            assert(x == vertices@[k as int]@);
            proof {
                lemma_pos_of_contains(ix, x);
            }
            let p = match position(&self.index, vertices[k].as_str()) {
                Some(p) => p,
                None => {
                    assert(false);
                    0
                },
            };
            let ghost o0 = views(orders@);
            orders.push(usize_to_string(p));
            assert(views(orders@) =~= o0.push(decimal(pos_of(ix, x) as nat)));
            assert(want.take(k + 1) =~= want.take(k as int).push(want[k as int]));
            k = k + 1;
        }
        assert(want.take(vertices.len() as int) =~= want);
        let joined = join(&orders, ", ");
        let mut r = String::from_str(label);
        r.append(": ");
        r.append(joined.as_str());
        r.append("\n");
        r
    }

    /// The pipes by position, see [`order_text`].
    fn show_all_vertices_in_order(&self) -> (r: String)
        ensures
            r@ == order_text(views(self.index@)),
    {
        let ghost ix = views(self.index@);
        let ghost want = Seq::new(ix.len(), |k: int| order_line(ix, k));
        let mut lines: Vec<String> = Vec::new();
        let mut k: usize = 0;
        while k < self.index.len()
            invariant
                ix == views(self.index@),
                want == Seq::new(ix.len(), |k: int| order_line(ix, k)),
                k <= self.index.len(),
                views(lines@) == want.take(k as int),
            decreases self.index.len() - k,
        {
            let mut line = usize_to_string(k);
            line.append(": ");
            line.append(self.index[k].as_str());
            let ghost l0 = views(lines@);
            lines.push(line);
            assert(views(lines@) =~= l0.push(order_line(ix, k as int)));
            assert(want.take(k + 1) =~= want.take(k as int).push(want[k as int]));
            k = k + 1;
        }
        assert(want.take(self.index.len() as int) =~= want);
        join(&lines, "\n")
    }
}

impl VisitEntity<Pipe> for PipeGraphAnalyzer {
    open spec fn visited(old: Self, new: Self, e: Pipe) -> bool {
        &&& new.names() == old.names().push(e.name@)
        &&& graph_step(old.graph_view(), new.graph_view(), e, old.names().len() as usize)
    }

    fn visit(&mut self, pipe: &Pipe) {
        let ghost v0 = views(self.index@);
        let order = self.index.len();
        self.graph.add_pipe(pipe, order);
        self.index.push(pipe.name.clone());
        assert(views(self.index@) =~= v0.push(pipe.name@));
    }
}

impl EntityAccept<PipeGraphAnalyzer> for Pipe {}

impl Analyze<Pipe> for PipeGraphAnalyzer {
    open spec fn fresh(&self) -> bool {
        &&& self.graph_view().wf()
        &&& self.graph_view().ids().len() == 0
        &&& self.names().len() == 0
    }

    open spec fn ready(&self) -> bool {
        analyzable(self.graph_view(), self.names())
    }

    open spec fn summary(&self) -> Seq<Seq<char>> {
        analysis_parts(self.graph_view(), self.names())
    }

    closed spec fn results(&self) -> Seq<Seq<char>> {
        views(self.results@)
    }

    fn new() -> (r: Self) {
        PipeGraphAnalyzer { graph: PipeGraph::new(), index: Vec::new(), results: Vec::new() }
    }

    fn analyze(&mut self) {
        self.graph.check_wf();
        let ghost g = self.graph.dg();
        let ghost ix = views(self.index@);
        let mut results: Vec<String> = Vec::new();
        let sources = self.graph.find_source_vertices();
        proof {
            let keep = |i: int| g.no_preds(i);
            assert forall|k: int| 0 <= k < sources.len() implies ix.contains(#[trigger] views(sources@)[k]) by {
                lemma_pick_contains(g.ids(), keep, views(sources@)[k]);
                assert(views(sources@).contains(views(sources@)[k]));
            }
        }
        let src_line = self.show_vertices("source", &sources);
        results.push(src_line);
        let sinks = self.graph.find_sink_vertices();
        proof {
            let keep = |i: int| g.no_succs(i);
            assert forall|k: int| 0 <= k < sinks.len() implies ix.contains(#[trigger] views(sinks@)[k]) by {
                lemma_pick_contains(g.ids(), keep, views(sinks@)[k]);
                assert(views(sinks@).contains(views(sinks@)[k]));
            }
        }
        let sink_line = self.show_vertices("sink", &sinks);
        results.push(sink_line);
        let sep = String::from_str("\n");
        results.push(sep);
        assert(views(results@) =~= seq![src_line@, sink_line@, "\n"@]);
        let comps = self.graph.find_components();
        let ghost cs = nested_views(comps@);
        let ghost head = views(results@);
        let mut c: usize = 0;
        while c < comps.len()
            invariant
                g == self.graph.dg(),
                ix == views(self.index@),
                analyzable(g, ix),
                cs == nested_views(comps@),
                forall|m: int| 0 <= m < comps.len() ==> g.is_component(#[trigger] cs[m]),
                c <= comps.len(),
                views(results@) == head + cs.take(c as int).map_values(|q: Seq<Seq<char>>| union_line(ix, q)),
            decreases comps.len() - c,
        {
            let comp = &comps[c];
            assert(cs[c as int] == views(comp@));
            proof {
                let s = choose|s: int| 0 <= s < g.ids().len() && cs[c as int] == g.component_ids(s);
                let keep = |j: int| g.connected(s, j);
                assert(keep =~= (|j: int| g.connected(s, j)));
                g.lemma_connected_refl(s);
                lemma_pick_contains(g.ids(), keep, g.ids()[s]);
                assert forall|k: int| 0 <= k < comp.len() implies ix.contains(#[trigger] views(comp@)[k]) by {
                    lemma_pick_contains(g.ids(), keep, views(comp@)[k]);
                    assert(views(comp@).contains(views(comp@)[k]));
                }
            }
            assert(comp.len() > 0);
            let ghost first = views(comp@)[0];
            assert(first == comp@[0]@);
            proof {
                lemma_pos_of_contains(ix, first);
            }
            let p = match position(&self.index, comp[0].as_str()) {
                Some(p) => p,
                None => {
                    assert(false);
                    0
                },
            };
            let mut label = String::from_str("union ");
            let d = usize_to_string(p);
            label.append(d.as_str());
            let line = self.show_vertices(label.as_str(), comp);
            let ghost r0 = views(results@);
            results.push(line);
            assert(views(results@) =~= r0.push(union_line(ix, cs[c as int])));
            assert(cs.take(c + 1).map_values(|q: Seq<Seq<char>>| union_line(ix, q)) =~= cs.take(c as int).map_values(
                |q: Seq<Seq<char>>| union_line(ix, q),
            ).push(union_line(ix, cs[c as int])));
            c = c + 1;
        }
        assert(cs.take(comps.len() as int) =~= cs);
        let ghost mid = views(results@);
        let sep2 = String::from_str("\n");
        results.push(sep2);
        let all = self.show_all_vertices_in_order();
        results.push(all);
        proof {
            assert(views(results@) =~= mid + seq!["\n"@, order_text(ix)]);
            assert(cs == g.components_upto(g.ids().len() as int));
            assert(head == seq![
                vertices_line("source"@, orders_of(ix, pick(g.ids(), |i: int| g.no_preds(i)))),
                vertices_line("sink"@, orders_of(ix, pick(g.ids(), |i: int| g.no_succs(i)))),
                "\n"@,
            ]);
            assert(views(results@) =~= analysis_parts(g, ix));
        }
        self.results = results;
    }

    fn get_result(&self) -> (r: String) {
        join(&self.results, "")
    }
}

impl App {
    /// The summary of the pipe graph (see [`analysis_parts`]), or `None` when
    /// two pipes share a name or some pipe names an upstream that is no pipe.
    pub fn analyze(&self) -> (r: Option<String>)
        ensures
            forall|g: DirectedGraph<usize>| #[trigger] graph_of_pipes(g, self.pipes@) ==> {
                &&& r is Some <==> analyzable(g, pipe_names(self.pipes@))
                &&& r is Some ==> r.unwrap()@ == join_seqs(analysis_parts(g, pipe_names(self.pipes@)), ""@)
            },
    {
        let pipes = self.get_pipes();
        let ghost ps = pipes@;
        let mut a = PipeGraphAnalyzer::new();
        proof {
            assert(a.graph_view().ids() =~= crate::ops::validate::pipes_vertex_ids(ps.take(0)));
            assert(graph_of_pipes(a.graph_view(), ps.take(0)));
            assert(a.names() =~= pipe_names(ps.take(0)));
        }
        let mut i: usize = 0;
        while i < pipes.len()
            invariant
                i <= pipes.len(),
                ps == pipes@,
                ps == self.pipes@,
                a.names() == pipe_names(ps.take(i as int)),
                graph_of_pipes(a.graph_view(), ps.take(i as int)),
            decreases pipes.len() - i,
        {
            let ghost g0 = a.graph_view();
            pipes[i].accept_entity_visitor(&mut a);
            proof {
                assert(ps.take(i + 1) =~= ps.take(i as int).push(ps[i as int]));
                lemma_graph_of_pipes_step(g0, a.graph_view(), ps.take(i as int), ps[i as int]);
                assert(pipe_names(ps.take(i + 1)) =~= pipe_names(ps.take(i as int)).push(ps[i as int].name@));
            }
            i = i + 1;
        }
        assert(ps.take(pipes.len() as int) =~= ps);
        let ghost g0 = a.graph_view();
        if !a.is_ready() {
            proof {
                assert forall|g: DirectedGraph<usize>| #[trigger] graph_of_pipes(g, self.pipes@) implies !analyzable(g, pipe_names(self.pipes@)) by {
                    lemma_graph_of_pipes_same(g0, g, ps);
                }
            }
            return None;
        }
        a.analyze();
        let r = a.get_result();
        proof {
            assert forall|g: DirectedGraph<usize>| #[trigger] graph_of_pipes(g, self.pipes@) implies {
                &&& analyzable(g, pipe_names(self.pipes@))
                &&& r@ == join_seqs(analysis_parts(g, pipe_names(self.pipes@)), ""@)
            } by {
                lemma_graph_of_pipes_same(g0, g, ps);
                g0.lemma_same_shape_paths(&g);
                assert((|i: int| g0.no_preds(i)) =~= (|i: int| g.no_preds(i)));
                assert((|i: int| g0.no_succs(i)) =~= (|i: int| g.no_succs(i)));
                assert(analysis_parts(g0, pipe_names(ps)) == analysis_parts(g, pipe_names(ps)));
            }
        }
        Some(r)
    }
}


/// Pipes that pass validation can always be summarised: their names are
/// distinct and every vertex of their graph is a pipe name.
pub proof fn lemma_valid_pipes_analyzable(ps: Seq<Pipe>, g: DirectedGraph<usize>)
    requires
        graph_of_pipes(g, ps),
        pipes_findings(ps, g).len() == 0,
        ps.len() <= usize::MAX,
    ensures
        analyzable(g, pipe_names(ps)),
{
    lemma_valid_pipes(ps, g);
    let names = pipe_names(ps);
    assert forall|v: int| 0 <= v < g.ids().len() implies names.contains(#[trigger] g.ids()[v]) by {
        let x = g.ids()[v];
        lemma_pipes_vertex_ids(ps);
        assert(g.ids().contains(x));
        let k = choose|k: int| 0 <= k < ps.len() && ((#[trigger] ps[k]).name@ == x || crate::models::pipe::pipe_upstreams(ps[k]).contains(x));
        if ps[k].name@ == x {
            assert(names[k] == x);
        } else {
            let y = ps[k].name@;
            assert(crate::ops::validate::pipes_vertex_ids(ps).contains(y));
            let j = choose|j: int| 0 <= j < g.ids().len() && g.ids()[j] == y;
            assert(pipes_edge(ps, x, y));
            assert(g.edge(v, j));
            assert(g.named_pair(v, j, x, y));
            assert(g.id_edge(x, y));
            assert(crate::ops::validate::declared(g, x));
            let i = choose|i: int| 0 <= i < g.ids().len() && g.ids()[i] == x && g.value(i) is Some;
            assert(g.value(i) == crate::ops::validate::last_pipe(ps, x));
            lemma_last_pipe(ps, x);
            let m = crate::ops::validate::last_pipe(ps, x).unwrap();
            assert(names[m as int] == x);
        }
    }
}

} // verus!
