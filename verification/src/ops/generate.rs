//! Generation of the application's Rust source: a module holding the `use`
//! lines, objects, pipes, context stores, the application object and its
//! bootstrap function, followed by `main`.
use crate::models::app::{bootstrap_fn_lit, main_fn_lit, uses_lit, App};
use crate::models::context::ContextStore;
use crate::models::data::{copy_data_type, data_ty_lit, Object};
use crate::models::meta::{shape_list_attr};
use crate::models::pipe::{pipe_shapes, pipe_shapes_with, pipe_upstreams, Pipe, PipeConfig};
use crate::models::{Entity, EntityAccept, VisitEntity};
use crate::text::{copy_opt_string, copy_opt_strings, indent_seq, join, join_seqs, opt_view, opt_views, views};
use vstd::prelude::*;

verus! {

/// The sections that are not empty, in order.
pub open spec fn drop_empty(ss: Seq<Seq<char>>) -> Seq<Seq<char>>
    decreases ss.len(),
{
    if ss.len() == 0 {
        Seq::empty()
    } else {
        let rest = drop_empty(ss.drop_last());
        if ss.last().len() > 0 {
            rest.push(ss.last())
        } else {
            rest
        }
    }
}

/// `mod module {`, the non-empty sections separated by blank lines, `}`.
pub open spec fn module_lit(module: Seq<char>, sections: Seq<Seq<char>>) -> Seq<char> {
    "mod "@ + module + " {\n"@ + join_seqs(drop_empty(sections), "\n\n"@) + "\n}"@
}

/// The objects' source, separated by blank lines.
pub open spec fn objects_lit(os: Seq<Object>, prefix: Seq<char>) -> Seq<char> {
    join_seqs(os.map_values(|o: Object| o.entity_lit(prefix)), "\n\n"@)
}

/// The context stores' source, one after another.
pub open spec fn cstores_lit(cs: Seq<ContextStore>, prefix: Seq<char>) -> Seq<char> {
    join_seqs(cs.map_values(|c: ContextStore| c.entity_lit(prefix)), "\n"@)
}

/// The upstream names of `p` that are in `f`.
pub open spec fn kept_upstreams(p: Pipe, f: Seq<Seq<char>>) -> Seq<Seq<char>> {
    pipe_upstreams(p).filter(|u: Seq<char>| f.contains(u))
}

/// The source of the pipes of `ps` named in `f`, each keeping only the
/// upstreams named in `f`.
pub open spec fn selected_pipe_lits(ps: Seq<Pipe>, f: Seq<Seq<char>>, prefix: Seq<char>) -> Seq<Seq<char>>
    decreases ps.len(),
{
    if ps.len() == 0 {
        Seq::empty()
    } else {
        let rest = selected_pipe_lits(ps.drop_last(), f, prefix);
        if f.contains(ps.last().name@) {
            rest.push(shape_list_attr("pipe"@, pipe_shapes_with(ps.last(), kept_upstreams(ps.last(), f)), prefix))
        } else {
            rest
        }
    }
}

/// The pipes' source, one after another; with a filter, only the pipes it
/// names, each keeping only the upstreams it names.
pub open spec fn pipes_lit(ps: Seq<Pipe>, prefix: Seq<char>, filter: Option<Seq<Seq<char>>>) -> Seq<char> {
    match filter {
        None => join_seqs(ps.map_values(|p: Pipe| p.entity_lit(prefix)), "\n"@),
        Some(f) => join_seqs(selected_pipe_lits(ps, f, prefix), "\n"@),
    }
}

/// The generated source of an application at nesting depth `indent`.
pub open spec fn app_lit(a: App, indent: nat, filter: Option<Seq<Seq<char>>>) -> Seq<char> {
    let p = indent_seq(indent + 1);
    module_lit(
        a.name@,
        seq![
            uses_lit(a, p),
            objects_lit(a.objects.unwrap()@, p),
            pipes_lit(a.pipes@, p, filter),
            cstores_lit(a.cstores.unwrap()@, p),
            a.entity_lit(p),
            bootstrap_fn_lit(p),
        ],
    ) + "\n\n"@ + main_fn_lit(a.name@, indent_seq(indent))
}

/// A generator: created for a nesting depth, it is handed an entity by
/// visiting it, then produces the entity's source.
pub trait Generate: Sized {
    /// An entity was handed over.
    spec fn ready(&self) -> bool;

    /// The source the generator produces.
    spec fn generated(&self) -> Seq<char>;

    /// The nesting depth at which the generator renders.
    spec fn depth(&self) -> usize;

    fn new(indent: usize) -> (g: Self)
        ensures
            !g.ready(),
            g.depth() == indent,
    ;

    fn generate(&self) -> (r: String)
        requires
            self.ready(),
        ensures
            r@ == self.generated(),
    ;
}

/// Produces the source of one pipe.
pub struct PipeGenerator {
    pub indent: usize,
    pub pipe: Option<String>,
}

impl VisitEntity<Pipe> for PipeGenerator {
    open spec fn visited(old: Self, new: Self, e: Pipe) -> bool {
        &&& new.indent == old.indent
        &&& e.upstreams is Some ==> opt_view(new.pipe) == Some(e.entity_lit(indent_seq(old.indent as nat)))
        &&& e.upstreams is None ==> new.pipe is None
    }

    fn visit(&mut self, pipe: &Pipe) {
        if pipe.upstreams.is_some() {
            self.pipe = Some(pipe.to_literal(self.indent));
        } else {
            self.pipe = None;
        }
    }
}

impl EntityAccept<PipeGenerator> for Pipe {}

impl Generate for PipeGenerator {
    open spec fn ready(&self) -> bool {
        self.pipe is Some
    }

    open spec fn generated(&self) -> Seq<char> {
        self.pipe.unwrap()@
    }

    open spec fn depth(&self) -> usize {
        self.indent
    }

    fn new(indent: usize) -> (g: Self) {
        PipeGenerator { indent, pipe: None }
    }

    fn generate(&self) -> (r: String) {
        self.pipe.as_ref().unwrap().clone()
    }
}

/// Produces the source of one object.
pub struct ObjectGenerator {
    pub indent: usize,
    pub object: Option<String>,
}

fn object_inited(o: &Object) -> (r: bool)
    ensures
        r == o.inited(),
{
    if o.metas.is_none() {
        return false;
    }
    let mut i: usize = 0;
    while i < o.fields.len()
        invariant
            i <= o.fields.len(),
            forall|k: int| 0 <= k < i ==> (#[trigger] o.fields@[k]).inited(),
        decreases o.fields.len() - i,
    {
        let f = &o.fields[i];
        if f.metas.is_none() || f.is_boxed.is_none() || f.is_optional.is_none() || f.is_public.is_none() {
            return false;
        }
        i = i + 1;
    }
    true
}

impl VisitEntity<Object> for ObjectGenerator {
    open spec fn visited(old: Self, new: Self, e: Object) -> bool {
        &&& new.indent == old.indent
        &&& e.inited() ==> opt_view(new.object) == Some(e.entity_lit(indent_seq(old.indent as nat)))
        &&& !e.inited() ==> new.object is None
    }

    fn visit(&mut self, object: &Object) {
        if object_inited(object) {
            self.object = Some(object.to_literal(self.indent));
        } else {
            self.object = None;
        }
    }
}

impl EntityAccept<ObjectGenerator> for Object {}

impl Generate for ObjectGenerator {
    open spec fn ready(&self) -> bool {
        self.object is Some
    }

    open spec fn generated(&self) -> Seq<char> {
        self.object.unwrap()@
    }

    open spec fn depth(&self) -> usize {
        self.indent
    }

    fn new(indent: usize) -> (g: Self) {
        ObjectGenerator { indent, object: None }
    }

    fn generate(&self) -> (r: String) {
        self.object.as_ref().unwrap().clone()
    }
}

/// Produces the source of one context store.
pub struct ContextStoreGenerator {
    pub indent: usize,
    pub cstore: Option<String>,
}

impl VisitEntity<ContextStore> for ContextStoreGenerator {
    open spec fn visited(old: Self, new: Self, e: ContextStore) -> bool {
        &&& new.indent == old.indent
        &&& opt_view(new.cstore) == Some(e.entity_lit(indent_seq(old.indent as nat)))
    }

    fn visit(&mut self, cstore: &ContextStore) {
        self.cstore = Some(cstore.to_literal(self.indent));
    }
}

impl EntityAccept<ContextStoreGenerator> for ContextStore {}

impl Generate for ContextStoreGenerator {
    open spec fn ready(&self) -> bool {
        self.cstore is Some
    }

    open spec fn generated(&self) -> Seq<char> {
        self.cstore.unwrap()@
    }

    open spec fn depth(&self) -> usize {
        self.indent
    }

    fn new(indent: usize) -> (g: Self) {
        ContextStoreGenerator { indent, cstore: None }
    }

    fn generate(&self) -> (r: String) {
        self.cstore.as_ref().unwrap().clone()
    }
}

/// A copy of `p` keeping only the upstreams named in `filter`.
fn filtered_pipe(p: &Pipe, filter: &Vec<String>) -> (q: Pipe)
    ensures
        pipe_shapes(q) == pipe_shapes_with(*p, kept_upstreams(*p, views(filter@))),
        q.upstreams is Some == p.upstreams is Some,
{
    let output = match &p.output {
        Some(o) => Some(copy_data_type(o)),
        None => None,
    };
    let mut q = Pipe {
        name: p.name.clone(),
        ty: p.ty,
        config: PipeConfig { ty: p.config.ty.clone(), path: copy_opt_string(&p.config.path) },
        buffer: p.buffer,
        upstreams: copy_opt_strings(&p.upstreams),
        output,
    };
    assert(pipe_upstreams(q) == pipe_upstreams(*p));
    q.filter_upstreams(filter);
    proof {
        assert(kept_upstreams(*p, views(filter@)) == pipe_upstreams(q));
        if p.output is Some {
            assert(data_ty_lit(q.output.unwrap()) == data_ty_lit(p.output.unwrap()));
        }
    }
    q
}

/// Generates the application's source.
pub struct AppGenerator {
    pub indent: usize,
    pub pipe_filter: Option<Vec<String>>,
}

impl AppGenerator {
    /// A generator at nesting depth `indent`, for all pipes.
    pub fn new(indent: usize) -> (g: Self)
        ensures
            g.indent == indent,
            g.pipe_filter is None,
    {
        AppGenerator { indent, pipe_filter: None }
    }

    /// Generate only the pipes named in `selected_pipes`.
    pub fn set_pipe_filter(&mut self, selected_pipes: Vec<String>)
        ensures
            final(self).indent == old(self).indent,
            final(self).pipe_filter == Some(selected_pipes),
    {
        self.pipe_filter = Some(selected_pipes);
    }

    /// The objects' source at `indent`.
    #[verifier::spinoff_prover]
    pub fn generate_objects(&self, app: &App, indent: usize) -> (r: String)
        requires
            app.inited(),
        ensures
            r@ == objects_lit(app.objects.unwrap()@, indent_seq(indent as nat)),
    {
        let objects = app.get_objects();
        let ghost want = objects@.map_values(|o: Object| o.entity_lit(indent_seq(indent as nat)));
        let mut lits: Vec<String> = Vec::new();
        let mut i: usize = 0;
        while i < objects.len()
            invariant
                i <= objects.len(),
                app.inited(),
                objects@ == app.objects.unwrap()@,
                want == objects@.map_values(|o: Object| o.entity_lit(indent_seq(indent as nat))),
                views(lits@) == want.take(i as int),
            decreases objects.len() - i,
        {
            assert(objects@[i as int].inited());
            let l = objects[i].to_literal(indent);
            let ghost l0 = views(lits@);
            lits.push(l);
            assert(views(lits@) =~= l0.push(want[i as int]));
            assert(want.take(i + 1) =~= want.take(i as int).push(want[i as int]));
            i = i + 1;
        }
        assert(want.take(objects.len() as int) =~= want);
        join(&lits, "\n\n")
    }

    /// The pipes' source at `indent`, as the filter selects.
    pub fn generate_pipes(&self, app: &App, indent: usize) -> (r: String)
        requires
            app.inited(),
        ensures
            r@ == pipes_lit(app.pipes@, indent_seq(indent as nat), opt_views(self.pipe_filter)),
    {
        let pipes = app.get_pipes();
        let ghost p = indent_seq(indent as nat);
        match &self.pipe_filter {
            None => {
                let ghost want = pipes@.map_values(|q: Pipe| q.entity_lit(p));
                let mut lits: Vec<String> = Vec::new();
                let mut i: usize = 0;
                while i < pipes.len()
                    invariant
                        i <= pipes.len(),
                        app.inited(),
                        pipes@ == app.pipes@,
                        want == pipes@.map_values(|q: Pipe| q.entity_lit(p)),
                        p == indent_seq(indent as nat),
                        views(lits@) == want.take(i as int),
                    decreases pipes.len() - i,
                {
                    assert(pipes@[i as int].upstreams is Some);
                    let l = pipes[i].to_literal(indent);
                    let ghost l0 = views(lits@);
                    lits.push(l);
                    assert(views(lits@) =~= l0.push(want[i as int]));
                    assert(want.take(i + 1) =~= want.take(i as int).push(want[i as int]));
                    i = i + 1;
                }
                assert(want.take(pipes.len() as int) =~= want);
                join(&lits, "\n")
            },
            Some(filter) => {
                let ghost f = views(filter@);
                let mut lits: Vec<String> = Vec::new();
                let mut i: usize = 0;
                while i < pipes.len()
                    invariant
                        i <= pipes.len(),
                        app.inited(),
                        pipes@ == app.pipes@,
                        f == views(filter@),
                        p == indent_seq(indent as nat),
                        views(lits@) == selected_pipe_lits(pipes@.take(i as int), f, p),
                    decreases pipes.len() - i,
                {
                    assert(pipes@.take(i + 1).drop_last() =~= pipes@.take(i as int));
                    assert(pipes@.take(i + 1).last() == pipes@[i as int]);
                    if crate::models::pipe::contains_str(filter, pipes[i].name.as_str()) {
                        assert(pipes@[i as int].upstreams is Some);
                        let q = filtered_pipe(&pipes[i], filter);
                        let l = q.to_literal(indent);
                        let ghost l0 = views(lits@);
                        lits.push(l);
                        assert(views(lits@) =~= l0.push(
                            shape_list_attr("pipe"@, pipe_shapes_with(pipes@[i as int], kept_upstreams(pipes@[i as int], f)), p),
                        ));
                    }
                    i = i + 1;
                }
                assert(pipes@.take(pipes.len() as int) =~= pipes@);
                join(&lits, "\n")
            },
        }
    }

    /// The context stores' source at `indent`.
    pub fn generate_context_store(&self, app: &App, indent: usize) -> (r: String)
        requires
            app.inited(),
        ensures
            r@ == cstores_lit(app.cstores.unwrap()@, indent_seq(indent as nat)),
    {
        let cstores = app.get_context_stores();
        let ghost want = cstores@.map_values(|c: ContextStore| c.entity_lit(indent_seq(indent as nat)));
        let mut lits: Vec<String> = Vec::new();
        let mut i: usize = 0;
        while i < cstores.len()
            invariant
                i <= cstores.len(),
                want == cstores@.map_values(|c: ContextStore| c.entity_lit(indent_seq(indent as nat))),
                views(lits@) == want.take(i as int),
            decreases cstores.len() - i,
        {
            let l = cstores[i].to_literal(indent);
            let ghost l0 = views(lits@);
            lits.push(l);
            assert(views(lits@) =~= l0.push(want[i as int]));
            assert(want.take(i + 1) =~= want.take(i as int).push(want[i as int]));
            i = i + 1;
        }
        assert(want.take(cstores.len() as int) =~= want);
        join(&lits, "\n")
    }

    /// The application object's source at `indent`.
    pub fn generate_app_object(&self, app: &App, indent: usize) -> (r: String)
        requires
            app.inited(),
        ensures
            r@ == app.entity_lit(indent_seq(indent as nat)),
    {
        app.to_literal(indent)
    }

    /// The bootstrap function's source at `indent`.
    pub fn generate_bootstrap_app_function(&self, app: &App, indent: usize) -> (r: String)
        ensures
            r@ == bootstrap_fn_lit(indent_seq(indent as nat)),
    {
        app.get_bootstrap_function_literal(indent)
    }

    /// The `main` function's source at `indent`.
    pub fn generate_main_function(&self, app: &App, indent: usize) -> (r: String)
        ensures
            r@ == main_fn_lit(app.name@, indent_seq(indent as nat)),
    {
        app.get_main_function_literal(indent)
    }

    /// The `use` lines at `indent`.
    pub fn generate_use_modules(&self, app: &App, indent: usize) -> (r: String)
        requires
            app.inited(),
        ensures
            r@ == uses_lit(*app, indent_seq(indent as nat)),
    {
        app.get_use_modules_literal(indent)
    }

    /// `mod module {`, the non-empty sections separated by blank lines, `}`.
    pub fn generate_module(module: &str, sections: &Vec<String>) -> (r: String)
        ensures
            r@ == module_lit(module@, views(sections@)),
    {
        let ghost ss = views(sections@);
        let mut kept: Vec<String> = Vec::new();
        let mut i: usize = 0;
        while i < sections.len()
            invariant
                i <= sections.len(),
                ss == views(sections@),
                views(kept@) == drop_empty(ss.take(i as int)),
            decreases sections.len() - i,
        {
            assert(ss.take(i + 1).drop_last() =~= ss.take(i as int));
            assert(ss.take(i + 1).last() == sections@[i as int]@);
            if sections[i].unicode_len() > 0 {
                let ghost k0 = views(kept@);
                kept.push(sections[i].clone());
                assert(views(kept@) =~= k0.push(sections@[i as int]@));
            }
            i = i + 1;
        }
        assert(ss.take(sections.len() as int) =~= ss);
        let mut r = String::new();
        r.append("mod ");
        r.append(module);
        r.append(" {\n");
        let body = join(&kept, "\n\n");
        r.append(body.as_str());
        r.append("\n}");
        r
    }

    /// The application's source: its module, a blank line, then `main`.
    pub fn generate_all(&self, app: &App) -> (r: String)
        requires
            app.inited(),
            self.indent < usize::MAX,
        ensures
            r@ == app_lit(*app, self.indent as nat, opt_views(self.pipe_filter)),
    {
        let module_name = app.get_app_module_name();
        let indent: usize = self.indent + 1;
        let mut sections: Vec<String> = Vec::new();
        sections.push(self.generate_use_modules(app, indent));
        sections.push(self.generate_objects(app, indent));
        sections.push(self.generate_pipes(app, indent));
        sections.push(self.generate_context_store(app, indent));
        sections.push(self.generate_app_object(app, indent));
        sections.push(self.generate_bootstrap_app_function(app, indent));
        let module_lit = Self::generate_module(module_name.as_str(), &sections);
        let main_function_lit = self.generate_main_function(app, self.indent);
        let mut r = module_lit;
        r.append("\n\n");
        r.append(main_function_lit.as_str());
        proof {
            let p = indent_seq(self.indent as nat + 1);
            assert(views(sections@) =~= seq![
                uses_lit(*app, p),
                objects_lit(app.objects.unwrap()@, p),
                pipes_lit(app.pipes@, p, opt_views(self.pipe_filter)),
                cstores_lit(app.cstores.unwrap()@, p),
                app.entity_lit(p),
                bootstrap_fn_lit(p),
            ]);
        }
        r
    }

    /// The application's source (see `generate_all`).
    pub fn generate(&self, app: &App) -> (r: String)
        requires
            app.inited(),
            self.indent < usize::MAX,
        ensures
            r@ == app_lit(*app, self.indent as nat, opt_views(self.pipe_filter)),
    {
        self.generate_all(app)
    }
}

} // verus!
