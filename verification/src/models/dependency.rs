//! Crate dependencies of a generated application.
use crate::text::{copy_opt_string, copy_opt_strings, opt_view, opt_views, str_eq, strings_of, views};
use vstd::prelude::*;

verus! {

/// A crate the generated application depends on, with the module paths it uses.
#[derive(Debug)]
pub struct Dependency {
    pub name: String,
    pub version: Option<String>,
    pub path: Option<String>,
    pub git: Option<String>,
    pub branch: Option<String>,
    pub tag: Option<String>,
    pub features: Option<Vec<String>>,
    pub package: Option<String>,
    /// Module paths used in the application.
    pub modules: Vec<String>,
}

/// A dependency as plain values.
pub ghost struct DependencyView {
    pub name: Seq<char>,
    pub version: Option<Seq<char>>,
    pub path: Option<Seq<char>>,
    pub git: Option<Seq<char>>,
    pub branch: Option<Seq<char>>,
    pub tag: Option<Seq<char>>,
    pub features: Option<Seq<Seq<char>>>,
    pub package: Option<Seq<char>>,
    pub modules: Seq<Seq<char>>,
}

impl View for Dependency {
    type V = DependencyView;

    open spec fn view(&self) -> DependencyView {
        DependencyView {
            name: self.name@,
            version: opt_view(self.version),
            path: opt_view(self.path),
            git: opt_view(self.git),
            branch: opt_view(self.branch),
            tag: opt_view(self.tag),
            features: opt_views(self.features),
            package: opt_view(self.package),
            modules: views(self.modules@),
        }
    }
}

/// Two dependencies are the same dependency when their names agree.
impl PartialEq for Dependency {
    fn eq(&self, other: &Self) -> (r: bool) {
        str_eq(self.name.as_str(), other.name.as_str())
    }
}

impl vstd::std_specs::cmp::PartialEqSpecImpl for Dependency {
    open spec fn obeys_eq_spec() -> bool {
        true
    }

    open spec fn eq_spec(&self, other: &Dependency) -> bool {
        self.name@ == other.name@
    }
}

impl Dependency {
    /// The crate name.
    pub fn get_name(&self) -> (r: String)
        ensures
            r@ == self.name@,
    {
        self.name.clone()
    }

    /// The version requirement, if any.
    pub fn get_version(&self) -> (r: Option<String>)
        ensures
            r == self.version,
    {
        copy_opt_string(&self.version)
    }

    /// The local path, if any.
    pub fn get_path(&self) -> (r: Option<String>)
        ensures
            r == self.path,
    {
        copy_opt_string(&self.path)
    }

    /// The git repository, if any.
    pub fn get_git(&self) -> (r: Option<String>)
        ensures
            r == self.git,
    {
        copy_opt_string(&self.git)
    }

    /// The git branch, if any.
    pub fn get_branch(&self) -> (r: Option<String>)
        ensures
            r == self.branch,
    {
        copy_opt_string(&self.branch)
    }

    /// The git tag, if any.
    pub fn get_tag(&self) -> (r: Option<String>)
        ensures
            r == self.tag,
    {
        copy_opt_string(&self.tag)
    }

    /// The enabled features, if any.
    pub fn get_features(&self) -> (r: Option<Vec<String>>)
        ensures
            opt_views(r) == opt_views(self.features),
    {
        copy_opt_strings(&self.features)
    }

    /// The package name when it differs from the crate name.
    pub fn get_package(&self) -> (r: Option<String>)
        ensures
            r == self.package,
    {
        copy_opt_string(&self.package)
    }

    /// The module paths the application uses.
    pub fn get_modules(&self) -> (r: &Vec<String>)
        ensures
            *r == self.modules,
    {
        &self.modules
    }
}

/// One setter call on a [`DependencyBuilder`], with its argument.
pub enum DependencySetting {
    Name(String),
    Version(String),
    Path(String),
    Git(String),
    Branch(String),
    Tag(String),
    Features(Vec<String>),
    Package(String),
    Modules(Vec<String>),
}

/// The builder `b` after the setter call `s`: that call's field takes its
/// argument, the others stay.
pub open spec fn dependency_set(b: DependencyBuilder, s: DependencySetting) -> DependencyBuilder {
    match s {
        DependencySetting::Name(x) => DependencyBuilder { name: Some(x), ..b },
        DependencySetting::Version(x) => DependencyBuilder { version: Some(x), ..b },
        DependencySetting::Path(x) => DependencyBuilder { path: Some(x), ..b },
        DependencySetting::Git(x) => DependencyBuilder { git: Some(x), ..b },
        DependencySetting::Branch(x) => DependencyBuilder { branch: Some(x), ..b },
        DependencySetting::Tag(x) => DependencyBuilder { tag: Some(x), ..b },
        DependencySetting::Features(x) => DependencyBuilder { features: Some(x), ..b },
        DependencySetting::Package(x) => DependencyBuilder { package: Some(x), ..b },
        DependencySetting::Modules(x) => DependencyBuilder { modules: x, ..b },
    }
}

/// The builder `b` after the setter calls `calls`, in order.
pub open spec fn dependency_after(b: DependencyBuilder, calls: Seq<DependencySetting>) -> DependencyBuilder
    decreases calls.len(),
{
    if calls.len() == 0 {
        b
    } else {
        dependency_set(dependency_after(b, calls.drop_last()), calls.last())
    }
}

/// The value the last call that `pick` answers for gave, if any.
pub open spec fn last_given<S, T>(calls: Seq<S>, pick: spec_fn(S) -> Option<T>) -> Option<T>
    decreases calls.len(),
{
    if calls.len() == 0 {
        None
    } else {
        match pick(calls.last()) {
            Some(v) => Some(v),
            None => last_given(calls.drop_last(), pick),
        }
    }
}

/// The value last given, else `before`.
pub open spec fn given_or<T>(given: Option<T>, before: T) -> T {
    match given {
        Some(v) => v,
        None => before,
    }
}

/// Nothing was given exactly when no call is one that `pick` answers for.
pub proof fn lemma_last_given_none<S, T>(calls: Seq<S>, pick: spec_fn(S) -> Option<T>)
    ensures
        last_given(calls, pick) is None <==> forall|k: int| 0 <= k < calls.len() ==> (#[trigger] pick(calls[k])) is None,
    decreases calls.len(),
{
    if calls.len() > 0 {
        lemma_last_given_none(calls.drop_last(), pick);
        assert forall|k: int| 0 <= k < calls.len() - 1 implies #[trigger] calls.drop_last()[k] == calls[k] by {}
        if last_given(calls, pick) is None {
            assert forall|k: int| 0 <= k < calls.len() implies (#[trigger] pick(calls[k])) is None by {
                if k < calls.len() - 1 {
                    assert(pick(calls.drop_last()[k]) is None);
                }
            }
        } else if forall|k: int| 0 <= k < calls.len() ==> (#[trigger] pick(calls[k])) is None {
            assert(pick(calls[calls.len() - 1]) is None);
            assert forall|k: int| 0 <= k < calls.len() - 1 implies (#[trigger] pick(calls.drop_last()[k])) is None by {
                assert(pick(calls[k]) is None);
            }
        }
    }
}

/// After any sequence of setter calls, each field of the builder holds the
/// last value given for it, or what it held before when none was; so a
/// builder made by `new` can be built exactly when some call set the name.
pub proof fn lemma_dependency_builder_calls(b: DependencyBuilder, calls: Seq<DependencySetting>)
    ensures
        dependency_after(b, calls).name == given_or(
            last_given(calls, |s: DependencySetting| match s { DependencySetting::Name(x) => Some(Some(x)), _ => None }),
            b.name,
        ),
        dependency_after(b, calls).version == given_or(
            last_given(calls, |s: DependencySetting| match s { DependencySetting::Version(x) => Some(Some(x)), _ => None }),
            b.version,
        ),
        dependency_after(b, calls).path == given_or(
            last_given(calls, |s: DependencySetting| match s { DependencySetting::Path(x) => Some(Some(x)), _ => None }),
            b.path,
        ),
        dependency_after(b, calls).git == given_or(
            last_given(calls, |s: DependencySetting| match s { DependencySetting::Git(x) => Some(Some(x)), _ => None }),
            b.git,
        ),
        dependency_after(b, calls).branch == given_or(
            last_given(calls, |s: DependencySetting| match s { DependencySetting::Branch(x) => Some(Some(x)), _ => None }),
            b.branch,
        ),
        dependency_after(b, calls).tag == given_or(
            last_given(calls, |s: DependencySetting| match s { DependencySetting::Tag(x) => Some(Some(x)), _ => None }),
            b.tag,
        ),
        dependency_after(b, calls).features == given_or(
            last_given(calls, |s: DependencySetting| match s { DependencySetting::Features(x) => Some(Some(x)), _ => None }),
            b.features,
        ),
        dependency_after(b, calls).package == given_or(
            last_given(calls, |s: DependencySetting| match s { DependencySetting::Package(x) => Some(Some(x)), _ => None }),
            b.package,
        ),
        dependency_after(b, calls).modules == given_or(
            last_given(calls, |s: DependencySetting| match s { DependencySetting::Modules(x) => Some(x), _ => None }),
            b.modules,
        ),
    decreases calls.len(),
{
    if calls.len() > 0 {
        lemma_dependency_builder_calls(b, calls.drop_last());
    }
}

/// Builds a dependency field by field.
#[derive(Debug)]
pub struct DependencyBuilder {
    pub name: Option<String>,
    pub version: Option<String>,
    pub path: Option<String>,
    pub git: Option<String>,
    pub branch: Option<String>,
    pub tag: Option<String>,
    pub features: Option<Vec<String>>,
    pub package: Option<String>,
    pub modules: Vec<String>,
}

impl DependencyBuilder {
    /// A builder with nothing set.
    pub fn new() -> (b: Self)
        ensures
            b.name is None,
            b.version is None,
            b.path is None,
            b.git is None,
            b.branch is None,
            b.tag is None,
            b.features is None,
            b.package is None,
            b.modules@.len() == 0,
    {
        DependencyBuilder {
            name: None,
            version: None,
            path: None,
            git: None,
            branch: None,
            tag: None,
            features: None,
            package: None,
            modules: Vec::new(),
        }
    }

    /// Sets the crate name.
    pub fn name(self, name: String) -> (b: Self)
        ensures
            b == (DependencyBuilder { name: Some(name), ..self }),
            b == dependency_set(self, DependencySetting::Name(name)),
    {
        DependencyBuilder { name: Some(name), ..self }
    }

    /// Sets the version requirement.
    pub fn version(self, version: String) -> (b: Self)
        ensures
            b == (DependencyBuilder { version: Some(version), ..self }),
            b == dependency_set(self, DependencySetting::Version(version)),
    {
        DependencyBuilder { version: Some(version), ..self }
    }

    /// Sets the local path.
    pub fn path(self, path: String) -> (b: Self)
        ensures
            b == (DependencyBuilder { path: Some(path), ..self }),
            b == dependency_set(self, DependencySetting::Path(path)),
    {
        DependencyBuilder { path: Some(path), ..self }
    }

    /// Sets the git repository.
    pub fn git(self, git: String) -> (b: Self)
        ensures
            b == (DependencyBuilder { git: Some(git), ..self }),
            b == dependency_set(self, DependencySetting::Git(git)),
    {
        DependencyBuilder { git: Some(git), ..self }
    }

    /// Sets the git branch.
    pub fn branch(self, branch: String) -> (b: Self)
        ensures
            b == (DependencyBuilder { branch: Some(branch), ..self }),
            b == dependency_set(self, DependencySetting::Branch(branch)),
    {
        DependencyBuilder { branch: Some(branch), ..self }
    }

    /// Sets the git tag.
    pub fn tag(self, tag: String) -> (b: Self)
        ensures
            b == (DependencyBuilder { tag: Some(tag), ..self }),
            b == dependency_set(self, DependencySetting::Tag(tag)),
    {
        DependencyBuilder { tag: Some(tag), ..self }
    }

    /// Sets the features.
    pub fn features(self, features: Vec<String>) -> (b: Self)
        ensures
            b == (DependencyBuilder { features: Some(features), ..self }),
            b == dependency_set(self, DependencySetting::Features(features)),
    {
        DependencyBuilder { features: Some(features), ..self }
    }

    /// Sets the package name.
    pub fn package(self, package: String) -> (b: Self)
        ensures
            b == (DependencyBuilder { package: Some(package), ..self }),
            b == dependency_set(self, DependencySetting::Package(package)),
    {
        DependencyBuilder { package: Some(package), ..self }
    }

    /// Sets the module paths.
    pub fn modules(self, modules: Vec<String>) -> (b: Self)
        ensures
            b == (DependencyBuilder { modules, ..self }),
            b == dependency_set(self, DependencySetting::Modules(modules)),
    {
        DependencyBuilder { modules, ..self }
    }

    /// The dependency; the name must have been set.
    pub fn build(self) -> (d: Dependency)
        requires
            self.name is Some,
        ensures
            d == (Dependency {
                name: self.name.unwrap(),
                version: self.version,
                path: self.path,
                git: self.git,
                branch: self.branch,
                tag: self.tag,
                features: self.features,
                package: self.package,
                modules: self.modules,
            }),
    {
        Dependency {
            name: self.name.unwrap(),
            version: self.version,
            path: self.path,
            git: self.git,
            branch: self.branch,
            tag: self.tag,
            features: self.features,
            package: self.package,
            modules: self.modules,
        }
    }
}

/// A dependency with a name, an optional version, git repository and package
/// name, features and module paths; no path, branch or tag.
pub open spec fn dependency_view(
    name: Seq<char>,
    version: Option<Seq<char>>,
    git: Option<Seq<char>>,
    package: Option<Seq<char>>,
    features: Option<Seq<Seq<char>>>,
    modules: Seq<Seq<char>>,
) -> DependencyView {
    DependencyView {
        name,
        version,
        path: None,
        git,
        branch: None,
        tag: None,
        features,
        package,
        modules,
    }
}

/// A published plugin crate `name` at `version`, whose items are all used.
pub open spec fn plugin_view(name: Seq<char>, version: Seq<char>, module: Seq<char>) -> DependencyView {
    dependency_view(name, Some(version), None, None, None, seq![module])
}

/// A plugin crate `name` taken from the project's repository, whose items are all used.
pub open spec fn repo_plugin_view(name: Seq<char>, module: Seq<char>) -> DependencyView {
    dependency_view(
        name,
        None,
        Some("https://github.com/pipebase/pipebase.git"@),
        Some(name),
        None,
        seq![module],
    )
}

fn plugin(name: &str, version: &str, module: &str) -> (d: Dependency)
    ensures
        d@ == plugin_view(name@, version@, module@),
{
    let d = DependencyBuilder::new().name(String::from_str(name)).version(
        String::from_str(version),
    ).modules(strings_of(&[module])).build();
    assert(d@.modules =~= seq![module@]);
    d
}

fn repo_plugin(name: &str, module: &str) -> (d: Dependency)
    ensures
        d@ == repo_plugin_view(name@, module@),
{
    let d = DependencyBuilder::new().name(String::from_str(name)).git(
        String::from_str("https://github.com/pipebase/pipebase.git"),
    ).package(String::from_str(name)).modules(strings_of(&[module])).build();
    assert(d@.modules =~= seq![module@]);
    d
}

/// tokio 1.6.1 with all features.
pub fn default_tokio_dependency() -> (d: Dependency)
    ensures
        d@ == dependency_view("tokio"@, Some("1.6.1"@), None, None, Some(seq!["full"@]), seq![]),
{
    let d = DependencyBuilder::new().name(String::from_str("tokio")).version(
        String::from_str("1.6.1"),
    ).features(strings_of(&["full"])).build();
    assert(d@.features.unwrap() =~= seq!["full"@]);
    assert(d@.modules =~= Seq::<Seq<char>>::empty());
    d
}

/// pipebase 0.1.10, with its prelude.
pub fn default_pipebase_dependency() -> (d: Dependency)
    ensures
        d@ == plugin_view("pipebase"@, "0.1.10"@, "pipebase::prelude::*"@),
{
    plugin("pipebase", "0.1.10", "pipebase::prelude::*")
}

/// tracing 0.1.
pub fn default_tracing_dependency() -> (d: Dependency)
    ensures
        d@ == dependency_view("tracing"@, Some("0.1"@), None, None, None, seq![]),
{
    let d = DependencyBuilder::new().name(String::from_str("tracing")).version(
        String::from_str("0.1"),
    ).build();
    assert(d@.modules =~= Seq::<Seq<char>>::empty());
    d
}

/// pipeavro 0.1.3.
pub fn default_avro_dependency() -> (d: Dependency)
    ensures
        d@ == plugin_view("pipeavro"@, "0.1.3"@, "pipeavro::*"@),
{
    plugin("pipeavro", "0.1.3", "pipeavro::*")
}

/// pipecql 0.2.1.
pub fn default_cql_dependency() -> (d: Dependency)
    ensures
        d@ == plugin_view("pipecql"@, "0.2.1"@, "pipecql::*"@),
{
    plugin("pipecql", "0.2.1", "pipecql::*")
}

/// pipecsv 0.1.4.
pub fn default_csv_dependency() -> (d: Dependency)
    ensures
        d@ == plugin_view("pipecsv"@, "0.1.4"@, "pipecsv::*"@),
{
    plugin("pipecsv", "0.1.4", "pipecsv::*")
}

/// pipejson 0.1.5.
pub fn default_json_dependency() -> (d: Dependency)
    ensures
        d@ == plugin_view("pipejson"@, "0.1.5"@, "pipejson::*"@),
{
    plugin("pipejson", "0.1.5", "pipejson::*")
}

/// pipekafka 0.2.2.
pub fn default_kafka_dependency() -> (d: Dependency)
    ensures
        d@ == plugin_view("pipekafka"@, "0.2.2"@, "pipekafka::*"@),
{
    plugin("pipekafka", "0.2.2", "pipekafka::*")
}

/// pipekube 0.1.4.
pub fn default_kube_dependency() -> (d: Dependency)
    ensures
        d@ == plugin_view("pipekube"@, "0.1.4"@, "pipekube::*"@),
{
    plugin("pipekube", "0.1.4", "pipekube::*")
}

/// pipemysql 0.2.1.
pub fn default_mysql_dependency() -> (d: Dependency)
    ensures
        d@ == plugin_view("pipemysql"@, "0.2.1"@, "pipemysql::*"@),
{
    plugin("pipemysql", "0.2.1", "pipemysql::*")
}

/// pipepsql 0.2.1.
pub fn default_psql_dependency() -> (d: Dependency)
    ensures
        d@ == plugin_view("pipepsql"@, "0.2.1"@, "pipepsql::*"@),
{
    plugin("pipepsql", "0.2.1", "pipepsql::*")
}

/// piperedis 0.1.5.
pub fn default_redis_dependency() -> (d: Dependency)
    ensures
        d@ == plugin_view("piperedis"@, "0.1.5"@, "piperedis::*"@),
{
    plugin("piperedis", "0.1.5", "piperedis::*")
}

/// pipereqwest 0.1.4.
pub fn default_reqwest_dependency() -> (d: Dependency)
    ensures
        d@ == plugin_view("pipereqwest"@, "0.1.4"@, "pipereqwest::*"@),
{
    plugin("pipereqwest", "0.1.4", "pipereqwest::*")
}

/// piperocksdb 0.1.4.
pub fn default_rocksdb_dependency() -> (d: Dependency)
    ensures
        d@ == plugin_view("piperocksdb"@, "0.1.4"@, "piperocksdb::*"@),
{
    plugin("piperocksdb", "0.1.4", "piperocksdb::*")
}

/// pipewarp 0.1.4.
pub fn default_warp_dependency() -> (d: Dependency)
    ensures
        d@ == plugin_view("pipewarp"@, "0.1.4"@, "pipewarp::*"@),
{
    plugin("pipewarp", "0.1.4", "pipewarp::*")
}

/// pipedynamodb from the project's repository.
pub fn default_dynamodb_dependency() -> (d: Dependency)
    ensures
        d@ == repo_plugin_view("pipedynamodb"@, "pipedynamodb::*"@),
{
    repo_plugin("pipedynamodb", "pipedynamodb::*")
}

/// pipes3 from the project's repository.
pub fn default_s3_dependency() -> (d: Dependency)
    ensures
        d@ == repo_plugin_view("pipes3"@, "pipes3::*"@),
{
    repo_plugin("pipes3", "pipes3::*")
}

/// pipesns from the project's repository.
pub fn default_sns_dependency() -> (d: Dependency)
    ensures
        d@ == repo_plugin_view("pipesns"@, "pipesns::*"@),
{
    repo_plugin("pipesns", "pipesns::*")
}

/// pipesqs from the project's repository.
pub fn default_sqs_dependency() -> (d: Dependency)
    ensures
        d@ == repo_plugin_view("pipesqs"@, "pipesqs::*"@),
{
    repo_plugin("pipesqs", "pipesqs::*")
}

/// pipemqtt 0.1.4.
pub fn default_mqtt_dependency() -> (d: Dependency)
    ensures
        d@ == plugin_view("pipemqtt"@, "0.1.4"@, "pipemqtt::*"@),
{
    plugin("pipemqtt", "0.1.4", "pipemqtt::*")
}

/// pipeamqp 0.1.2.
pub fn default_amqp_dependency() -> (d: Dependency)
    ensures
        d@ == plugin_view("pipeamqp"@, "0.1.2"@, "pipeamqp::*"@),
{
    plugin("pipeamqp", "0.1.2", "pipeamqp::*")
}

/// An item whose configuration calls for a plugin crate.
pub trait UseCrate: Sized {
    /// The crate the item's configuration calls for, if any.
    spec fn used_crate(&self) -> Option<DependencyView>;

    fn get_crate(&self) -> (r: Option<Dependency>)
        ensures
            r is Some == self.used_crate() is Some,
            r is Some ==> r.unwrap()@ == self.used_crate().unwrap(),
    ;

    /// Hands the item to a crate visitor.
    fn accept_crate_visitor(&self, visitor: &mut CrateVisitor)
        ensures
            deps_view(final(visitor).dependencies@) == deps_view(old(visitor).dependencies@)
                + opt_seq(self.used_crate()),
    {
        let ghost before = visitor.dependencies@;
        if let Some(dependency) = self.get_crate() {
            visitor.dependencies.push(dependency);
        }
        assert(deps_view(visitor.dependencies@) =~= deps_view(before) + opt_seq(self.used_crate()));
    }
}

/// The views of a sequence of dependencies.
pub open spec fn deps_view(ds: Seq<Dependency>) -> Seq<DependencyView> {
    ds.map_values(|d: Dependency| d@)
}

/// The present value as a one-element sequence, or nothing.
pub open spec fn opt_seq<T>(o: Option<T>) -> Seq<T> {
    match o {
        Some(v) => seq![v],
        None => Seq::empty(),
    }
}

/// Collects the crates that the visited items call for.
pub struct CrateVisitor {
    pub dependencies: Vec<Dependency>,
}

impl CrateVisitor {
    /// A visitor that has collected nothing.
    pub fn new() -> (v: Self)
        ensures
            v.dependencies@.len() == 0,
    {
        CrateVisitor { dependencies: vec![] }
    }

    /// Collects the crate `entity` calls for, if any.
    pub fn visit<T: UseCrate>(&mut self, entity: &T)
        ensures
            deps_view(final(self).dependencies@) == deps_view(old(self).dependencies@) + opt_seq(
                entity.used_crate(),
            ),
    {
        let ghost before = self.dependencies@;
        if let Some(dependency) = entity.get_crate() {
            self.dependencies.push(dependency);
            assert(deps_view(self.dependencies@) =~= deps_view(before) + opt_seq(entity.used_crate()));
        } else {
            assert(deps_view(self.dependencies@) =~= deps_view(before) + opt_seq(entity.used_crate()));
        }
    }

    /// The collected crates, in visiting order.
    pub fn into_dependencies(self) -> (r: Vec<Dependency>)
        ensures
            r == self.dependencies,
    {
        self.dependencies
    }
}

} // verus!
