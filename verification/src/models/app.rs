//! The application: the root of a manifest.
use crate::models::constants::{APP_OBJECT_NAME, BOOTSTRAP_FUNCTION_META, BOOTSTRAP_FUNCTION_NAME, BOOTSTRAP_MODULE_META_PATH, DEFAULT_APP_OBJECT, PIPEBASE_MAIN, TRACING_INSTRUMENT};
use crate::models::context::ContextStore;
use crate::models::data::{field_inited_from, fields_inited_from, DataType, Object};
use crate::models::dependency::{default_pipebase_dependency, default_tokio_dependency, default_tracing_dependency, dependency_view, deps_view, opt_seq, plugin_view, CrateVisitor, Dependency, DependencyView, UseCrate};
use crate::models::error::ErrorHandler;
use crate::models::function::{Block, FunctionBuilder, Rhs, Statement};
use crate::models::meta::{is_leaf_list, is_shape_list, lemma_shape_list_lit, meta_attr, metas_block, metas_to_literal, shape_list_attr, Meta, MetaLeaf, MetaShape, MetaValue};
use crate::models::pipe::{lemma_pipe_crate_table, pipe_crate, pipe_upstreams, Pipe};
use crate::models::Entity;
use crate::error::Error;
use crate::ops::describe::{api_error_is, graph_description, ids_display, last_object, not_exists_msg, object_text, pipe_output_lits, pipeline_lines, AppDescriber};
use crate::ops::generate::{app_lit, AppGenerator};
use crate::ops::graph::{with_ids, DirectedGraph};
use crate::ops::validate::{app_findings, cstores_findings, declared, graph_of_pipes, last_pipe, object_tys, objects_findings, pipe_names, pipes_findings, reported, AppValidator};
use crate::text::{indent_literal, indent_seq, indent_unit, join, join_seqs, views};
use vstd::prelude::*;

verus! {

/// An application: its name, attributes, dependencies, context stores, error
/// handler, pipes and objects.
#[derive(Debug)]
pub struct App {
    pub name: String,
    pub metas: Option<Vec<Meta>>,
    pub dependencies: Option<Vec<Dependency>>,
    pub cstores: Option<Vec<ContextStore>>,
    pub error: Option<ErrorHandler>,
    pub pipes: Vec<Pipe>,
    pub objects: Option<Vec<Object>>,
}

/// The module paths of all dependencies, in order.
pub open spec fn deps_modules(ds: Seq<Dependency>) -> Seq<Seq<char>>
    decreases ds.len(),
{
    if ds.len() == 0 {
        Seq::empty()
    } else {
        deps_modules(ds.drop_last()) + views(ds.last().modules@)
    }
}

/// Some dependency in `ds` is called `name`.
pub open spec fn has_name(ds: Seq<DependencyView>, name: Seq<char>) -> bool {
    exists|i: int| 0 <= i < ds.len() && (#[trigger] ds[i]).name == name
}

/// `existing`, then each candidate whose name is not yet taken, in order.
pub open spec fn add_missing(existing: Seq<DependencyView>, candidates: Seq<DependencyView>) -> Seq<DependencyView>
    decreases candidates.len(),
{
    if candidates.len() == 0 {
        existing
    } else {
        let acc = add_missing(existing, candidates.drop_last());
        let c = candidates.last();
        if has_name(acc, c.name) {
            acc
        } else {
            acc.push(c)
        }
    }
}

/// The crates every application depends on: pipebase, tokio and tracing.
pub open spec fn default_deps() -> Seq<DependencyView> {
    seq![
        plugin_view("pipebase"@, "0.1.10"@, "pipebase::prelude::*"@),
        dependency_view("tokio"@, Some("1.6.1"@), None, None, Some(seq!["full"@]), seq![]),
        dependency_view("tracing"@, Some("0.1"@), None, None, None, seq![]),
    ]
}

/// The crates the pipes' configurations call for, in pipe order.
pub open spec fn pipes_crates(ps: Seq<Pipe>) -> Seq<DependencyView>
    decreases ps.len(),
{
    if ps.len() == 0 {
        Seq::empty()
    } else {
        pipes_crates(ps.drop_last()) + opt_seq(pipe_crate(ps.last().config.ty@))
    }
}

/// The crates the context stores' configurations call for, in order.
pub open spec fn cstores_crates(cs: Seq<ContextStore>) -> Seq<DependencyView>
    decreases cs.len(),
{
    if cs.len() == 0 {
        Seq::empty()
    } else {
        cstores_crates(cs.drop_last()) + opt_seq(cs.last().used_crate())
    }
}

/// The crates an application's parts call for: those of the pipes, of the
/// context stores and of the error handler, then the default crates.
pub open spec fn visited_crates(a: App) -> Seq<DependencyView> {
    pipes_crates(a.pipes@) + (match a.cstores {
        Some(cs) => cstores_crates(cs@),
        None => Seq::empty(),
    }) + (match a.error {
        Some(e) => opt_seq(e.used_crate()),
        None => Seq::empty(),
    }) + default_deps()
}

/// `new` is the pipe `old` after `init`.
pub open spec fn pipe_inited_from(new: Pipe, old: Pipe) -> bool {
    &&& new.name == old.name
    &&& new.ty == old.ty
    &&& new.config == old.config
    &&& new.buffer == old.buffer
    &&& new.output == old.output
    &&& new.upstreams is Some
    &&& pipe_upstreams(new) == pipe_upstreams(old)
    &&& (old.upstreams is Some ==> new.upstreams == old.upstreams)
}

/// `new` is the object `old` after `init`.
pub open spec fn object_inited_from(new: Object, old: Object) -> bool {
    &&& new.ty == old.ty
    &&& new.metas is Some
    &&& (old.metas is Some ==> new.metas == old.metas)
    &&& (old.metas is None ==> new.metas.unwrap()@.len() == 0)
    &&& fields_inited_from(new.fields@, old.fields@)
    &&& new.inited()
}

/// The attributes an application gets when it declares none: `derive(Bootstrap, Default)`.
pub open spec fn is_default_metas(ms: Seq<Meta>) -> bool {
    &&& ms.len() == 1
    &&& is_leaf_list(
        ms[0],
        "derive"@,
        seq![MetaLeaf::Path { name: "Bootstrap"@ }, MetaLeaf::Path { name: "Default"@ }],
    )
}

/// `new` is the application `old` after `init`.
pub open spec fn app_inited_from(new: App, old: App) -> bool {
    &&& new.name == old.name
    &&& new.error == old.error
    &&& new.dependencies is Some
    &&& deps_view(new.dependencies.unwrap()@) == add_missing(
        match old.dependencies {
            Some(ds) => deps_view(ds@),
            None => Seq::empty(),
        },
        visited_crates(old),
    )
    &&& new.metas is Some
    &&& (old.metas is Some ==> new.metas == old.metas)
    &&& (old.metas is None ==> is_default_metas(new.metas.unwrap()@))
    &&& new.pipes.len() == old.pipes.len()
    &&& (forall|i: int| 0 <= i < new.pipes.len() ==> pipe_inited_from(#[trigger] new.pipes@[i], old.pipes@[i]))
    &&& new.objects is Some
    &&& (old.objects is None ==> new.objects.unwrap()@.len() == 0)
    &&& (old.objects is Some ==> new.objects.unwrap()@.len() == old.objects.unwrap()@.len() && forall|i: int|
        0 <= i < new.objects.unwrap()@.len() ==> object_inited_from(
            #[trigger] new.objects.unwrap()@[i],
            old.objects.unwrap()@[i],
        ))
    &&& new.cstores is Some
    &&& (old.cstores is Some ==> new.cstores == old.cstores)
    &&& (old.cstores is None ==> new.cstores.unwrap()@.len() == 0)
}

/// The `use` lines of an application at indentation `prefix`.
pub open spec fn uses_lit(a: App, prefix: Seq<char>) -> Seq<char> {
    join_seqs(deps_modules(a.dependencies.unwrap()@).map_values(|m: Seq<char>| prefix + "use "@ + m), ";\n"@)
        + ";"@
}

/// The signature of the bootstrap function.
pub open spec fn bootstrap_signature() -> Seq<char> {
    join_seqs(seq!["pub"@, "async"@, "fn"@, "bootstrap"@ + "("@ + ")"@, "-> "@ + "App"@], " "@)
}

/// The bootstrap function at indentation `prefix`: `#[bootstrap(App)]`, then
/// `pub async fn bootstrap() -> App` returning `App::default()`.
pub open spec fn bootstrap_fn_lit(prefix: Seq<char>) -> Seq<char> {
    (prefix + "#[\n"@ + (prefix + indent_unit() + "bootstrap(App)"@) + "\n"@ + prefix + "]"@) + "\n"@
        + (prefix + bootstrap_signature() + " {\n"@ + (prefix + indent_unit() + "App::default()"@)
        + "\n"@ + prefix + "}"@)
}

/// The generated `main` at indentation `prefix`: `#[pipebase::main(bootstrap =
/// "module")]` and `#[tracing::instrument]` on an empty `async fn main()`.
pub open spec fn main_fn_lit(module: Seq<char>, prefix: Seq<char>) -> Seq<char> {
    shape_list_attr(
        "pipebase::main"@,
        seq![MetaShape::Leaf(MetaLeaf::Str { name: "bootstrap"@, value: module, raw: false })],
        prefix,
    ) + "\n"@ + (prefix + "#[\n"@ + (prefix + indent_unit() + "tracing::instrument"@) + "\n"@ + prefix
        + "]"@) + "\n"@ + (prefix + join_seqs(seq!["async"@, "fn"@, "main"@ + "("@ + ")"@], " "@)
        + " {\n"@ + Seq::<char>::empty() + "\n"@ + prefix + "}"@)
}

/// The application object's declaration at indentation `prefix`: an empty
/// `pub struct App`, after an empty attribute block.
pub open spec fn app_object_lit(prefix: Seq<char>) -> Seq<char> {
    Seq::<char>::empty() + "\n"@ + prefix + "pub struct "@ + "App"@ + " {\n"@ + Seq::<char>::empty() + "\n"@ + prefix + "}"@
}

proof fn lemma_add_missing_step(existing: Seq<DependencyView>, candidates: Seq<DependencyView>, c: DependencyView)
    ensures
        add_missing(existing, candidates.push(c)) == (if has_name(add_missing(existing, candidates), c.name) {
            add_missing(existing, candidates)
        } else {
            add_missing(existing, candidates).push(c)
        }),
{
    assert(candidates.push(c).drop_last() =~= candidates);
}

impl App {
    /// The application is ready: every optional part is filled in, and every
    /// pipe and object is `init`-ed.
    pub open spec fn inited(&self) -> bool {
        &&& self.metas is Some
        &&& self.dependencies is Some
        &&& self.cstores is Some
        &&& self.objects is Some
        &&& (forall|i: int| 0 <= i < self.pipes.len() ==> (#[trigger] self.pipes@[i]).upstreams is Some)
        &&& (forall|i: int| 0 <= i < self.objects.unwrap().len() ==> (#[trigger] self.objects.unwrap()@[i]).inited())
    }

    /// An application from the parts of a manifest, `init`-ed.
    pub fn new(
        name: String,
        metas: Option<Vec<Meta>>,
        dependencies: Option<Vec<Dependency>>,
        cstores: Option<Vec<ContextStore>>,
        error: Option<ErrorHandler>,
        pipes: Vec<Pipe>,
        objects: Option<Vec<Object>>,
    ) -> (a: App)
        ensures
            app_inited_from(a, App { name, metas, dependencies, cstores, error, pipes, objects }),
            a.inited(),
    {
        let mut app = App { name, metas, dependencies, cstores, error, pipes, objects };
        app.init();
        app
    }

    /// Fills in the parts left out and adds the crates the parts call for.
    pub fn init(&mut self)
        ensures
            app_inited_from(*final(self), *old(self)),
            final(self).inited(),
    {
        if self.dependencies.is_none() {
            self.dependencies = Some(Vec::new());
        }
        let candidates = self.visit_dependencies();
        let ghost start = deps_view(self.dependencies.unwrap()@);
        assert(start == match old(self).dependencies {
            Some(ds) => deps_view(ds@),
            None => Seq::empty(),
        }) by {
            if old(self).dependencies is None {
                assert(deps_view(self.dependencies.unwrap()@) =~= Seq::<DependencyView>::empty());
            }
        }
        let ghost cands = deps_view(candidates@);
        let mut candidates = candidates;
        let ghost n = candidates.len();
        let mut k: usize = 0;
        while candidates.len() > 0
            invariant
                self.dependencies is Some,
                self.name == old(self).name,
                self.error == old(self).error,
                self.metas == old(self).metas,
                self.pipes == old(self).pipes,
                self.objects == old(self).objects,
                self.cstores == old(self).cstores,
                n == cands.len(),
                k <= n,
                candidates.len() == n - k,
                forall|j: int| 0 <= j < candidates.len() ==> (#[trigger] candidates@[j])@ == cands[k + j],
                deps_view(self.dependencies.unwrap()@) == add_missing(start, cands.subrange(0, k as int)),
            decreases candidates.len(),
        {
            let dependency = candidates.remove(0);
            let exists = self.has_dependency(&dependency);
            proof {
                lemma_add_missing_step(start, cands.subrange(0, k as int), cands[k as int]);
                assert(cands.subrange(0, k + 1) =~= cands.subrange(0, k as int).push(cands[k as int]));
            }
            if !exists {
                self.add_dependency(dependency);
            }
            k = k + 1;
        }
        assert(cands.subrange(0, n as int) =~= cands);
        if self.metas.is_none() {
            self.metas = Some(Self::default_metas());
        }
        let ghost old_pipes = self.pipes@;
        let mut i: usize = 0;
        while i < self.pipes.len()
            invariant
                i <= self.pipes.len(),
                self.pipes.len() == old_pipes.len(),
                old_pipes == old(self).pipes@,
                self.name == old(self).name,
                self.error == old(self).error,
                self.dependencies is Some,
                deps_view(self.dependencies.unwrap()@) == add_missing(start, cands),
                self.metas is Some,
                old(self).metas is Some ==> self.metas == old(self).metas,
                old(self).metas is None ==> is_default_metas(self.metas.unwrap()@),
                self.objects == old(self).objects,
                self.cstores == old(self).cstores,
                forall|j: int| 0 <= j < i ==> pipe_inited_from(#[trigger] self.pipes@[j], old_pipes[j]),
                forall|j: int| i <= j < self.pipes.len() ==> #[trigger] self.pipes@[j] == old_pipes[j],
            decreases self.pipes.len() - i,
        {
            let mut p = self.pipes.remove(i);
            p.init();
            self.pipes.insert(i, p);
            i = i + 1;
        }
        if self.objects.is_none() {
            self.objects = Some(vec![]);
        }
        let ghost old_objects = self.objects.unwrap()@;
        let mut objects = self.objects.take().unwrap();
        let mut i: usize = 0;
        while i < objects.len()
            invariant
                i <= objects.len(),
                objects.len() == old_objects.len(),
                forall|j: int| 0 <= j < i ==> object_inited_from(#[trigger] objects@[j], old_objects[j]),
                forall|j: int| i <= j < objects.len() ==> #[trigger] objects@[j] == old_objects[j],
            decreases objects.len() - i,
        {
            let mut o = objects.remove(i);
            o.init();
            objects.insert(i, o);
            i = i + 1;
        }
        self.objects = Some(objects);
        if self.cstores.is_none() {
            self.cstores = Some(vec![]);
        }
    }

    /// Whether a dependency of the same name is already there.
    pub fn has_dependency(&self, other: &Dependency) -> (r: bool)
        requires
            self.dependencies is Some,
        ensures
            r == has_name(deps_view(self.dependencies.unwrap()@), other.name@),
    {
        let dependencies = self.dependencies.as_ref().unwrap();
        let ghost ds = deps_view(dependencies@);
        assert(ds == deps_view(self.dependencies.unwrap()@));
        let mut i: usize = 0;
        while i < dependencies.len()
            invariant
                i <= dependencies.len(),
                ds == deps_view(dependencies@),
                ds == deps_view(self.dependencies.unwrap()@),
                forall|j: int| 0 <= j < i ==> dependencies@[j].name@ != other.name@,
            decreases dependencies.len() - i,
        {
            if dependencies[i].eq(other) {
                assert(ds[i as int].name == other.name@);
                assert(has_name(ds, other.name@));
                return true;
            }
            i = i + 1;
        }
        proof {
            if has_name(ds, other.name@) {
                let j = choose|j: int| 0 <= j < ds.len() && (#[trigger] ds[j]).name == other.name@;
                assert(dependencies@[j].name@ == other.name@);
            }
        }
        false
    }

    /// Appends a dependency.
    pub fn add_dependency(&mut self, dependency: Dependency)
        requires
            old(self).dependencies is Some,
        ensures
            final(self).dependencies is Some,
            final(self).dependencies.unwrap()@ == old(self).dependencies.unwrap()@.push(dependency),
            final(self).name == old(self).name,
            final(self).error == old(self).error,
            final(self).metas == old(self).metas,
            final(self).pipes == old(self).pipes,
            final(self).objects == old(self).objects,
            final(self).cstores == old(self).cstores,
    {
        let mut dependencies = self.dependencies.take().unwrap();
        dependencies.push(dependency);
        self.dependencies = Some(dependencies);
    }

    /// The dependencies.
    pub fn get_dependencies(&self) -> (r: &Vec<Dependency>)
        requires
            self.dependencies is Some,
        ensures
            *r == self.dependencies.unwrap(),
    {
        self.dependencies.as_ref().unwrap()
    }

    /// The package dependencies (the same as [`App::get_dependencies`]).
    pub fn get_package_dependency(&self) -> (r: &Vec<Dependency>)
        requires
            self.dependencies is Some,
        ensures
            *r == self.dependencies.unwrap(),
    {
        self.get_dependencies()
    }

    /// The crates the parts call for, then the default crates.
    pub fn visit_dependencies(&self) -> (r: Vec<Dependency>)
        ensures
            deps_view(r@) == visited_crates(*self),
    {
        let mut visitor = CrateVisitor::new();
        let mut i: usize = 0;
        assert(deps_view(visitor.dependencies@) =~= pipes_crates(self.pipes@.subrange(0, 0)));
        while i < self.pipes.len()
            invariant
                i <= self.pipes.len(),
                deps_view(visitor.dependencies@) == pipes_crates(self.pipes@.subrange(0, i as int)),
            decreases self.pipes.len() - i,
        {
            self.pipes[i].accept_crate_visitor(&mut visitor);
            assert(self.pipes@.subrange(0, i + 1).drop_last() =~= self.pipes@.subrange(0, i as int));
            i = i + 1;
        }
        assert(self.pipes@.subrange(0, self.pipes.len() as int) =~= self.pipes@);
        let ghost after_pipes = deps_view(visitor.dependencies@);
        if let Some(cstores) = self.cstores.as_ref() {
            let mut i: usize = 0;
            assert(cstores_crates(cstores@.subrange(0, 0)) =~= Seq::<DependencyView>::empty());
            while i < cstores.len()
                invariant
                    i <= cstores.len(),
                    deps_view(visitor.dependencies@) == after_pipes + cstores_crates(cstores@.subrange(0, i as int)),
                decreases cstores.len() - i,
            {
                cstores[i].accept_crate_visitor(&mut visitor);
                assert(cstores@.subrange(0, i + 1).drop_last() =~= cstores@.subrange(0, i as int));
                i = i + 1;
            }
            assert(cstores@.subrange(0, cstores.len() as int) =~= cstores@);
        }
        let ghost after_cstores = deps_view(visitor.dependencies@);
        if let Some(error_handler) = self.error.as_ref() {
            error_handler.accept_crate_visitor(&mut visitor);
        }
        let mut all_dependencies = visitor.into_dependencies();
        let defaults = Self::default_dependencies();
        let ghost before = deps_view(all_dependencies@);
        let mut defaults = defaults;
        let mut k: usize = 0;
        while defaults.len() > 0
            invariant
                k <= 3,
                defaults.len() == 3 - k,
                forall|j: int| 0 <= j < defaults.len() ==> (#[trigger] defaults@[j])@ == default_deps()[k + j],
                deps_view(all_dependencies@) == before + default_deps().subrange(0, k as int),
            decreases defaults.len(),
        {
            let d = defaults.remove(0);
            let ghost prev = all_dependencies@;
            all_dependencies.push(d);
            assert(deps_view(all_dependencies@) =~= deps_view(prev).push(default_deps()[k as int]));
            assert(default_deps().subrange(0, k + 1) =~= default_deps().subrange(0, k as int).push(default_deps()[k as int]));
            k = k + 1;
        }
        assert(default_deps().subrange(0, 3) =~= default_deps());
        all_dependencies
    }

    /// pipebase, tokio and tracing.
    pub fn default_dependencies() -> (r: Vec<Dependency>)
        ensures
            r.len() == 3,
            forall|j: int| 0 <= j < 3 ==> (#[trigger] r@[j])@ == default_deps()[j],
    {
        let mut r: Vec<Dependency> = Vec::new();
        r.push(default_pipebase_dependency());
        r.push(default_tokio_dependency());
        r.push(default_tracing_dependency());
        r
    }

    /// `derive(Bootstrap, Default)`.
    pub fn default_metas() -> (r: Vec<Meta>)
        ensures
            is_default_metas(r@),
    {
        let mut paths: Vec<Meta> = Vec::new();
        paths.push(Meta::Path { name: String::from_str("Bootstrap") });
        paths.push(Meta::Path { name: String::from_str("Default") });
        let derive = Meta::List { name: String::from_str("derive"), metas: paths };
        let mut r: Vec<Meta> = Vec::new();
        r.push(derive);
        assert(is_leaf_list(
            r@[0],
            "derive"@,
            seq![MetaLeaf::Path { name: "Bootstrap"@ }, MetaLeaf::Path { name: "Default"@ }],
        ));
        r
    }

    /// The `use` lines for the dependencies' module paths at indentation level `indent`.
    pub fn get_use_modules_literal(&self, indent: usize) -> (r: String)
        requires
            self.inited(),
        ensures
            r@ == uses_lit(*self, indent_seq(indent as nat)),
    {
        let indent_lit = indent_literal(indent);
        let modules = self.list_dependency();
        let ghost ms = deps_modules(self.dependencies.unwrap()@);
        let mut use_module_lits: Vec<String> = Vec::new();
        let mut i: usize = 0;
        while i < modules.len()
            invariant
                i <= modules.len(),
                views(modules@) == ms,
                use_module_lits.len() == i,
                forall|j: int| 0 <= j < i ==> #[trigger] use_module_lits@[j]@ == indent_lit@ + "use "@ + ms[j],
            decreases modules.len() - i,
        {
            let mut lit = indent_lit.clone();
            lit.append("use ");
            lit.append(modules[i].as_str());
            use_module_lits.push(lit);
            i = i + 1;
        }
        assert(views(use_module_lits@) =~= ms.map_values(|m: Seq<char>| indent_lit@ + "use "@ + m));
        let mut r = join(&use_module_lits, ";\n");
        r.append(";");
        r
    }

    /// The bootstrap function at indentation level `indent`.
    pub fn get_bootstrap_function_literal(&self, indent: usize) -> (r: String)
        ensures
            r@ == bootstrap_fn_lit(indent_seq(indent as nat)),
    {
        let meta = Meta::Path { name: String::from_str(BOOTSTRAP_FUNCTION_META) };
        let rtype = DataType::Object(String::from_str(APP_OBJECT_NAME));
        let mut statements: Vec<Statement> = Vec::new();
        statements.push(Statement::new(None, Rhs::Expr(String::from_str(DEFAULT_APP_OBJECT))));
        let block = Block::new(statements);
        let function = FunctionBuilder::new().name(String::from_str(BOOTSTRAP_FUNCTION_NAME)).meta(
            meta,
        ).public(true).asynchronous(true).block(block).rtype(rtype).build();
        let r = function.to_literal(indent);
        proof {
            let p = indent_seq(indent as nat);
            reveal_with_fuel(join_seqs, 2);
            assert(function.args@.map_values(|a: crate::models::data::DataField| crate::models::data::field_lit(a, Seq::empty())) =~= Seq::<Seq<char>>::empty());
            assert(crate::models::function::signature_words(function) =~= seq!["pub"@, "async"@, "fn"@, "bootstrap"@ + "("@ + ")"@, "-> "@ + "App"@]);
            let ss = function.block.statements@;
            assert(ss.drop_last() =~= Seq::<Statement>::empty());
            assert(crate::models::function::statement_lit(ss[0], p + indent_unit()) == p + indent_unit() + "App::default()"@);
            assert(crate::models::function::statements_lits(ss, p + indent_unit()) =~= seq![p + indent_unit() + "App::default()"@]);
            assert(crate::models::meta::metas_attrs(function.metas@, p) =~= seq![meta_attr(function.metas@[0], p)]);
            assert(r@ =~= bootstrap_fn_lit(p));
        }
        r
    }

    /// The generated `main` at indentation level `indent`.
    pub fn get_main_function_literal(&self, indent: usize) -> (r: String)
        ensures
            r@ == main_fn_lit(self.name@, indent_seq(indent as nat)),
    {
        let mut main_args: Vec<Meta> = Vec::new();
        main_args.push(Meta::Value {
            name: String::from_str(BOOTSTRAP_MODULE_META_PATH),
            meta: MetaValue::Str { value: self.get_app_module_name(), raw: false },
        });
        let main_meta = Meta::List { name: String::from_str(PIPEBASE_MAIN), metas: main_args };
        let ghost m0 = main_meta;
        let mut metas: Vec<Meta> = Vec::new();
        metas.push(main_meta);
        metas.push(Meta::Path { name: String::from_str(TRACING_INSTRUMENT) });
        let block = Block::new(Vec::new());
        let function = FunctionBuilder::new().name(String::from_str("main")).metas(metas).public(
            false,
        ).asynchronous(true).block(block).build();
        let r = function.to_literal(indent);
        proof {
            let p = indent_seq(indent as nat);
            let shapes = seq![MetaShape::Leaf(MetaLeaf::Str { name: "bootstrap"@, value: self.name@, raw: false })];
            assert(is_shape_list(m0, "pipebase::main"@, shapes));
            lemma_shape_list_lit(m0, "pipebase::main"@, shapes, p, false);
            reveal_with_fuel(join_seqs, 3);
            assert(crate::models::meta::metas_attrs(function.metas@, p) =~= seq![
                meta_attr(function.metas@[0], p),
                meta_attr(function.metas@[1], p),
            ]);
            assert(function.args@.map_values(|a: crate::models::data::DataField| crate::models::data::field_lit(a, Seq::empty())) =~= Seq::<Seq<char>>::empty());
            assert(crate::models::function::signature_words(function) =~= seq!["async"@, "fn"@, "main"@ + "("@ + ")"@]);
            assert(crate::models::function::statements_lits(function.block.statements@, p + indent_unit()) =~= Seq::<Seq<char>>::empty());
            assert(r@ =~= main_fn_lit(self.name@, p));
        }
        r
    }

    /// The application's attributes at indentation level `indent`.
    pub fn get_app_metas_lit(&self, indent: usize) -> (r: String)
        requires
            self.metas is Some,
        ensures
            r@ == metas_block(self.metas.unwrap()@, indent_seq(indent as nat)),
    {
        let metas = self.metas.as_ref().unwrap();
        metas_to_literal(metas.as_slice(), indent)
    }

    /// The context stores.
    pub fn get_context_stores(&self) -> (r: &Vec<ContextStore>)
        requires
            self.cstores is Some,
        ensures
            *r == self.cstores.unwrap(),
    {
        self.cstores.as_ref().unwrap()
    }

    /// The error handler, if any.
    pub fn get_error_handler(&self) -> (r: Option<&ErrorHandler>)
        ensures
            r == (match self.error {
                Some(e) => Some(&e),
                None => None,
            }),
    {
        self.error.as_ref()
    }

    /// The objects.
    pub fn get_objects(&self) -> (r: &Vec<Object>)
        requires
            self.objects is Some,
        ensures
            *r == self.objects.unwrap(),
    {
        self.objects.as_ref().unwrap()
    }

    /// The pipes.
    pub fn get_pipes(&self) -> (r: &Vec<Pipe>)
        ensures
            *r == self.pipes,
    {
        &self.pipes
    }

    /// The generated module's name: the application's name.
    pub fn get_app_module_name(&self) -> (r: String)
        ensures
            r@ == self.name@,
    {
        self.name.clone()
    }
}

impl Entity for App {
    open spec fn entity_id(&self) -> Seq<char> {
        self.name@
    }

    open spec fn entity_deps(&self) -> Seq<Seq<char>> {
        deps_modules(self.dependencies.unwrap()@)
    }

    open spec fn entity_deps_ready(&self) -> bool {
        self.dependencies is Some
    }

    open spec fn entity_ready(&self) -> bool {
        self.inited()
    }

    open spec fn entity_lit(&self, prefix: Seq<char>) -> Seq<char> {
        app_object_lit(prefix)
    }

    fn get_id(&self) -> (r: String) {
        self.name.clone()
    }

    fn list_dependency(&self) -> (r: Vec<String>) {
        let dependencies = self.get_dependencies();
        let mut r: Vec<String> = Vec::new();
        let mut i: usize = 0;
        while i < dependencies.len()
            invariant
                i <= dependencies.len(),
                *dependencies == self.dependencies.unwrap(),
                views(r@) == deps_modules(dependencies@.subrange(0, i as int)),
            decreases dependencies.len() - i,
        {
            let modules = dependencies[i].get_modules();
            let ghost before = r@;
            let mut j: usize = 0;
            while j < modules.len()
                invariant
                    j <= modules.len(),
                    views(r@) == views(before) + views(modules@).subrange(0, j as int),
                decreases modules.len() - j,
            {
                let ghost prev = r@;
                r.push(modules[j].clone());
                assert(views(r@) =~= views(prev).push(modules@[j as int]@));
                assert(views(r@) =~= views(before) + views(modules@).subrange(0, j + 1));
                j = j + 1;
            }
            assert(views(modules@).subrange(0, modules.len() as int) =~= views(modules@));
            assert(dependencies@.subrange(0, i + 1).drop_last() =~= dependencies@.subrange(0, i as int));
            i = i + 1;
        }
        assert(dependencies@.subrange(0, dependencies.len() as int) =~= dependencies@);
        r
    }

    fn to_literal(&self, indent: usize) -> (r: String) {
        let app = Object::new(String::from_str(APP_OBJECT_NAME), Vec::new(), Vec::new());
        let r = app.to_literal(indent);
        proof {
            let p = indent_seq(indent as nat);
            reveal_with_fuel(join_seqs, 2);
            assert(metas_block(app.metas.unwrap()@, p) =~= Seq::<char>::empty());
            assert(crate::models::data::fields_lits(app.fields@, p + indent_unit()) =~= Seq::<Seq<char>>::empty());
            assert(r@ =~= app_object_lit(p));
        }
        r
    }
}

impl App {
    /// The application's source.
    pub fn generate(&self) -> (r: String)
        requires
            self.inited(),
        ensures
            r@ == app_lit(*self, 0, None),
    {
        let g = AppGenerator::new(0);
        g.generate(self)
    }

    /// The source of the application with only the pipes in the component of
    /// the pipe named `pid`, or an error when no pipe has that name.
    pub fn generate_pipes(&self, pid: &str) -> (r: Result<String, Error>)
        requires
            self.inited(),
        ensures
            forall|g: DirectedGraph<usize>| #[trigger] graph_of_pipes(g, self.pipes@) ==> {
                &&& !declared(g, pid@) ==> api_error_is(r, not_exists_msg("pipe"@, pid@))
                &&& declared(g, pid@) ==> r is Ok && forall|i: int|
                    0 <= i < g.ids().len() && g.ids()[i] == pid@ ==> r.unwrap()@ == app_lit(
                        *self,
                        0,
                        Some(#[trigger] g.component_ids(i)),
                    )
            },
    {
        let describer = AppDescriber::new();
        let component = match describer.get_pipe_component(self, pid) {
            Ok(c) => c,
            Err(e) => {
                return Err(e);
            },
        };
        let mut generator = AppGenerator::new(0);
        let ghost cv = views(component@);
        generator.set_pipe_filter(component);
        let r = generator.generate(self);
        assert(crate::text::opt_views(generator.pipe_filter) == Some(cv));
        Ok(r)
    }

    /// Validates the pipes: names, then outputs, then the pipe graph.
    pub fn validate_pipes(&self) -> (r: Result<(), Error>)
        ensures
            forall|g: DirectedGraph<usize>| graph_of_pipes(g, self.pipes@) ==> reported(r, #[trigger] pipes_findings(self.pipes@, g)),
    {
        let validator = AppValidator::new("");
        validator.validate_pipes(self)
    }

    /// Validates the objects: types, then fields, then the types the fields use.
    pub fn validate_objects(&self) -> (r: Result<(), Error>)
        requires
            self.inited(),
        ensures
            reported(r, objects_findings(self.objects.unwrap()@)),
    {
        let validator = AppValidator::new("");
        validator.validate_objects(self)
    }

    /// Validates the context store names.
    pub fn validate_cstores(&self) -> (r: Result<(), Error>)
        requires
            self.inited(),
        ensures
            reported(r, cstores_findings(self.cstores.unwrap()@)),
    {
        let validator = AppValidator::new("");
        validator.validate_cstores(self)
    }

    /// Validates the pipes, then the objects, then the context stores.
    pub fn validate(&self) -> (r: Result<(), Error>)
        requires
            self.inited(),
        ensures
            forall|g: DirectedGraph<usize>| graph_of_pipes(g, self.pipes@) ==> reported(r, #[trigger] app_findings(*self, g)),
    {
        let validator = AppValidator::new("");
        validator.validate(self)
    }

    /// One line: `pipe: ` and the pipe names, each once.
    pub fn describe_pipes(&self) -> (r: Vec<String>)
        ensures
            views(r@) == seq![ids_display(with_ids(Seq::empty(), pipe_names(self.pipes@)), ", "@, Some("pipe"@))],
    {
        AppDescriber::new().describe_pipes(self)
    }

    /// The description of the last pipe named `pid`, or an error when there
    /// is none.
    pub fn describe_pipe(&self, pid: &str) -> (r: Result<String, Error>)
        ensures
            match last_pipe(self.pipes@, pid@) {
                Some(k) => r is Ok && r.unwrap()@ == crate::models::pipe::pipe_display(self.pipes@[k as int]),
                None => api_error_is(r, not_exists_msg("pipe"@, pid@)),
            },
    {
        AppDescriber::new().describe_pipe(self, pid)
    }

    /// The sources, the sinks and the components of the pipe graph.
    pub fn describe_pipe_graph(&self) -> (r: Vec<String>)
        ensures
            forall|g: DirectedGraph<usize>| graph_of_pipes(g, self.pipes@) ==> views(r@) == #[trigger] graph_description(g),
    {
        AppDescriber::new().describe_pipe_graph(self)
    }

    /// A line for each pipeline through the pipe named `pid`, or an error
    /// when no pipe has that name.
    pub fn describe_pipelines(&self, pid: &str) -> (r: Result<Vec<String>, Error>)
        ensures
            forall|g: DirectedGraph<usize>| #[trigger] graph_of_pipes(g, self.pipes@) ==> {
                &&& !declared(g, pid@) ==> api_error_is(r, not_exists_msg("pipe"@, pid@))
                &&& declared(g, pid@) ==> r is Ok && exists|ps: Seq<Seq<Seq<char>>>|
                    (forall|p: Seq<Seq<char>>| #[trigger] ps.contains(p) <==> g.is_pipeline(p, pid@)) && views(r.unwrap()@)
                        == #[trigger] pipeline_lines(g, pipe_output_lits(self.pipes@), ps)
            },
    {
        AppDescriber::new().describe_pipelines(self, pid)
    }

    /// One line: `objects: ` and the object types, each once.
    pub fn describe_objects(&self) -> (r: Vec<String>)
        requires
            self.inited(),
        ensures
            views(r@) == seq![ids_display(with_ids(Seq::empty(), object_tys(self.objects.unwrap()@)), ", "@, Some("objects"@))],
    {
        AppDescriber::new().describe_objects(self)
    }

    /// The description of the last object of type `oid`, or an error when
    /// there is none.
    pub fn describe_object(&self, oid: &str) -> (r: Result<String, Error>)
        requires
            self.inited(),
        ensures
            match last_object(self.objects.unwrap()@, oid@) {
                Some(k) => r is Ok && r.unwrap()@ == object_text(self.objects.unwrap()@[k as int]),
                None => api_error_is(r, not_exists_msg("object"@, oid@)),
            },
    {
        AppDescriber::new().describe_object(self, oid)
    }

    /// The application described: the line of its pipes.
    pub fn describe(&self) -> (r: Vec<String>)
        ensures
            views(r@) == seq![ids_display(with_ids(Seq::empty(), pipe_names(self.pipes@)), ", "@, Some("pipe"@))],
    {
        AppDescriber::new().describe(self)
    }
}

/// Adding the missing dependencies keeps those already there, in order, gives
/// every candidate's name a dependency, and adds only names not yet taken.
pub proof fn lemma_add_missing(existing: Seq<DependencyView>, candidates: Seq<DependencyView>)
    ensures
        add_missing(existing, candidates).len() >= existing.len(),
        forall|i: int| 0 <= i < existing.len() ==> #[trigger] add_missing(existing, candidates)[i] == existing[i],
        forall|k: int| 0 <= k < candidates.len() ==> has_name(add_missing(existing, candidates), #[trigger] candidates[k].name),
        forall|i: int, j: int|
            0 <= i < j < add_missing(existing, candidates).len() && existing.len() <= j ==> #[trigger] add_missing(
                existing,
                candidates,
            )[i].name != #[trigger] add_missing(existing, candidates)[j].name,
    decreases candidates.len(),
{
    if candidates.len() > 0 {
        let rest = candidates.drop_last();
        let acc = add_missing(existing, rest);
        let c = candidates.last();
        lemma_add_missing(existing, rest);
        let r = add_missing(existing, candidates);
        assert forall|k: int| 0 <= k < candidates.len() implies has_name(r, #[trigger] candidates[k].name) by {
            if k < candidates.len() - 1 {
                assert(rest[k] == candidates[k]);
                assert(has_name(acc, rest[k].name));
                let m = choose|m: int| 0 <= m < acc.len() && (#[trigger] acc[m]).name == rest[k].name;
                assert(r[m] == acc[m]);
            } else if !has_name(acc, c.name) {
                assert(r[acc.len() as int] == c);
            }
        }
        if !has_name(acc, c.name) {
            assert forall|i: int, j: int|
                0 <= i < j < r.len() && existing.len() <= j implies #[trigger] r[i].name != #[trigger] r[j].name by {
                if j == acc.len() {
                    assert(r[i] == acc[i]);
                    if acc[i].name == c.name {
                        assert(has_name(acc, c.name));
                    }
                } else {
                    assert(r[i] == acc[i]);
                    assert(r[j] == acc[j]);
                }
            }
        }
    }
}

/// The dependencies an application declares, none when it declares none.
pub open spec fn declared_deps(a: App) -> Seq<DependencyView> {
    match a.dependencies {
        Some(ds) => deps_view(ds@),
        None => Seq::empty(),
    }
}

/// Initialising keeps the dependencies the application declared, in order,
/// at the front; every crate its pipes, context stores, error handler and the
/// defaults call for then has a dependency of that name; and each dependency
/// added has a name unlike every dependency before it.
pub proof fn lemma_init_dependencies(a0: App, a1: App)
    requires
        app_inited_from(a1, a0),
    ensures
        deps_view(a1.dependencies.unwrap()@).len() >= declared_deps(a0).len(),
        forall|i: int| 0 <= i < declared_deps(a0).len() ==> #[trigger] deps_view(a1.dependencies.unwrap()@)[i]
            == declared_deps(a0)[i],
        forall|k: int|
            0 <= k < visited_crates(a0).len() ==> has_name(
                deps_view(a1.dependencies.unwrap()@),
                #[trigger] visited_crates(a0)[k].name,
            ),
        forall|i: int, j: int|
            0 <= i < j < deps_view(a1.dependencies.unwrap()@).len() && declared_deps(a0).len() <= j
                ==> #[trigger] deps_view(a1.dependencies.unwrap()@)[i].name
                != #[trigger] deps_view(a1.dependencies.unwrap()@)[j].name,
{
    lemma_add_missing(declared_deps(a0), visited_crates(a0));
}

/// The crate a pipe's configuration calls for stands among the crates the
/// pipes call for.
proof fn lemma_pipes_crates_contains(ps: Seq<Pipe>, k: int)
    requires
        0 <= k < ps.len(),
        pipe_crate(ps[k].config.ty@) is Some,
    ensures
        exists|j: int| 0 <= j < pipes_crates(ps).len() && #[trigger] pipes_crates(ps)[j]
            == pipe_crate(ps[k].config.ty@).unwrap(),
    decreases ps.len(),
{
    let rest = pipes_crates(ps.drop_last());
    let last = opt_seq(pipe_crate(ps.last().config.ty@));
    assert(pipes_crates(ps) == rest + last);
    if k == ps.len() - 1 {
        assert(pipes_crates(ps)[rest.len() as int] == pipe_crate(ps[k].config.ty@).unwrap());
    } else {
        assert(ps.drop_last()[k] == ps[k]);
        lemma_pipes_crates_contains(ps.drop_last(), k);
        let j = choose|j: int| 0 <= j < rest.len() && #[trigger] rest[j]
            == pipe_crate(ps[k].config.ty@).unwrap();
        assert(pipes_crates(ps)[j] == rest[j]);
    }
}

/// After initialising, the application has a dependency named after the crate
/// each of its pipes' configurations calls for.
pub proof fn lemma_init_pipe_crate(a0: App, a1: App, k: int)
    requires
        app_inited_from(a1, a0),
        0 <= k < a0.pipes.len(),
        pipe_crate(a0.pipes@[k].config.ty@) is Some,
    ensures
        has_name(deps_view(a1.dependencies.unwrap()@), pipe_crate(a0.pipes@[k].config.ty@).unwrap().name),
{
    lemma_init_dependencies(a0, a1);
    lemma_pipes_crates_contains(a0.pipes@, k);
    let pc = pipes_crates(a0.pipes@);
    let j = choose|j: int| 0 <= j < pc.len() && #[trigger] pc[j] == pipe_crate(a0.pipes@[k].config.ty@).unwrap();
    assert(visited_crates(a0)[j] == pc[j]);
}

/// An initialised application holding a Kafka consumer or producer pipe has a
/// dependency named `pipekafka`.
pub proof fn lemma_init_kafka_pipe(a0: App, a1: App, k: int)
    requires
        app_inited_from(a1, a0),
        0 <= k < a0.pipes.len(),
        a0.pipes@[k].config.ty@ == "KafkaConsumerConfig"@ || a0.pipes@[k].config.ty@
            == "KafkaPartitionedProducerConfig"@ || a0.pipes@[k].config.ty@ == "KafkaProducerConfig"@,
    ensures
        has_name(deps_view(a1.dependencies.unwrap()@), "pipekafka"@),
{
    lemma_pipe_crate_table();
    lemma_init_pipe_crate(a0, a1, k);
}

proof fn lemma_add_missing_again(r: Seq<DependencyView>, candidates: Seq<DependencyView>)
    requires
        forall|k: int| 0 <= k < candidates.len() ==> has_name(r, #[trigger] candidates[k].name),
    ensures
        add_missing(r, candidates) == r,
    decreases candidates.len(),
{
    if candidates.len() > 0 {
        let rest = candidates.drop_last();
        assert forall|k: int| 0 <= k < rest.len() implies has_name(r, #[trigger] rest[k].name) by {
            assert(rest[k] == candidates[k]);
        }
        lemma_add_missing_again(r, rest);
        assert(has_name(r, candidates[candidates.len() - 1].name));
    }
}

proof fn lemma_pipes_crates_same(ps: Seq<Pipe>, qs: Seq<Pipe>)
    requires
        ps.len() == qs.len(),
        forall|i: int| 0 <= i < ps.len() ==> (#[trigger] ps[i]).config == qs[i].config,
    ensures
        pipes_crates(ps) == pipes_crates(qs),
    decreases ps.len(),
{
    if ps.len() > 0 {
        assert forall|i: int| 0 <= i < ps.drop_last().len() implies (#[trigger] ps.drop_last()[i]).config
            == qs.drop_last()[i].config by {
            assert(ps[i].config == qs[i].config);
        }
        lemma_pipes_crates_same(ps.drop_last(), qs.drop_last());
        assert(ps[ps.len() - 1].config == qs[qs.len() - 1].config);
    }
}

/// Initialising an application a second time changes nothing: the same
/// dependencies, attributes, context stores, pipes and objects.
pub proof fn lemma_init_twice(a0: App, a1: App, a2: App)
    requires
        app_inited_from(a1, a0),
        app_inited_from(a2, a1),
    ensures
        a2.name == a1.name,
        a2.error == a1.error,
        deps_view(a2.dependencies.unwrap()@) == deps_view(a1.dependencies.unwrap()@),
        a2.metas == a1.metas,
        a2.cstores == a1.cstores,
        a2.pipes@ == a1.pipes@,
        a2.objects.unwrap()@.len() == a1.objects.unwrap()@.len(),
        forall|i: int| 0 <= i < a1.objects.unwrap()@.len() ==> {
            &&& (#[trigger] a2.objects.unwrap()@[i]).ty == a1.objects.unwrap()@[i].ty
            &&& a2.objects.unwrap()@[i].metas == a1.objects.unwrap()@[i].metas
            &&& a2.objects.unwrap()@[i].fields@ == a1.objects.unwrap()@[i].fields@
        },
{
    let e = match a0.dependencies {
        Some(ds) => deps_view(ds@),
        None => Seq::empty(),
    };
    let v0 = visited_crates(a0);
    lemma_add_missing(e, v0);
    assert forall|i: int| 0 <= i < a0.pipes.len() implies (#[trigger] a1.pipes@[i]).config == a0.pipes@[i].config by {
        assert(pipe_inited_from(a1.pipes@[i], a0.pipes@[i]));
    }
    lemma_pipes_crates_same(a1.pipes@, a0.pipes@);
    if a0.cstores is None {
        assert(cstores_crates(a1.cstores.unwrap()@) == Seq::<DependencyView>::empty());
    }
    assert(visited_crates(a1) == v0);
    lemma_add_missing_again(add_missing(e, v0), v0);
    assert forall|i: int| 0 <= i < a1.pipes@.len() implies #[trigger] a2.pipes@[i] == a1.pipes@[i] by {
        assert(pipe_inited_from(a2.pipes@[i], a1.pipes@[i]));
        assert(pipe_inited_from(a1.pipes@[i], a0.pipes@[i]));
    }
    assert(a2.pipes@ =~= a1.pipes@);
    assert forall|i: int| 0 <= i < a1.objects.unwrap()@.len() implies {
        &&& (#[trigger] a2.objects.unwrap()@[i]).ty == a1.objects.unwrap()@[i].ty
        &&& a2.objects.unwrap()@[i].metas == a1.objects.unwrap()@[i].metas
        &&& a2.objects.unwrap()@[i].fields@ == a1.objects.unwrap()@[i].fields@
    } by {
        let o1 = a1.objects.unwrap()@[i];
        let o2 = a2.objects.unwrap()@[i];
        assert(object_inited_from(o2, o1));
        assert(o1.inited());
        assert forall|k: int| 0 <= k < o1.fields@.len() implies #[trigger] o2.fields@[k] == o1.fields@[k] by {
            assert(field_inited_from(o2.fields@[k], o1.fields@[k]));
            assert(o1.fields@[k].inited());
        }
        assert(o2.fields@ =~= o1.fields@);
    }
}

} // verus!
