//! Package dependencies declared in a manifest.
use crate::models::dependency::{dependency_view, DependencyView};
use crate::text::{copy_opt_string, copy_opt_strings, opt_view, opt_views, str_eq, strings_of, views};
use vstd::prelude::*;

verus! {

/// A package the generated application depends on.
#[derive(Debug)]
pub struct PackageDependency {
    pub name: String,
    pub version: Option<String>,
    pub path: Option<String>,
    pub git: Option<String>,
    pub branch: Option<String>,
    pub tag: Option<String>,
    pub features: Option<Vec<String>>,
    pub package: Option<String>,
    /// Module paths used in the application.
    pub modules: Vec<String>,
}

impl View for PackageDependency {
    type V = DependencyView;

    open spec fn view(&self) -> DependencyView {
        DependencyView {
            name: self.name@,
            version: opt_view(self.version),
            path: opt_view(self.path),
            git: opt_view(self.git),
            branch: opt_view(self.branch),
            tag: opt_view(self.tag),
            features: opt_views(self.features),
            package: opt_view(self.package),
            modules: views(self.modules@),
        }
    }
}

/// Two packages are the same package when their names agree.
impl PartialEq for PackageDependency {
    fn eq(&self, other: &Self) -> (r: bool) {
        str_eq(self.name.as_str(), other.name.as_str())
    }
}

impl vstd::std_specs::cmp::PartialEqSpecImpl for PackageDependency {
    open spec fn obeys_eq_spec() -> bool {
        true
    }

    open spec fn eq_spec(&self, other: &PackageDependency) -> bool {
        self.name@ == other.name@
    }
}

impl PackageDependency {
    /// A package from all its parts.
    pub fn new(
        name: String,
        version: Option<String>,
        path: Option<String>,
        git: Option<String>,
        branch: Option<String>,
        tag: Option<String>,
        features: Option<Vec<String>>,
        package: Option<String>,
        modules: Vec<String>,
    ) -> (p: Self)
        ensures
            p == (PackageDependency { name, version, path, git, branch, tag, features, package, modules }),
    {
        PackageDependency { name, version, path, git, branch, tag, features, package, modules }
    }

    /// The package name.
    pub fn get_name(&self) -> (r: String)
        ensures
            r@ == self.name@,
    {
        self.name.clone()
    }

    /// The version requirement, if any.
    pub fn get_version(&self) -> (r: Option<String>)
        ensures
            r == self.version,
    {
        copy_opt_string(&self.version)
    }

    /// The local path, if any.
    pub fn get_path(&self) -> (r: Option<String>)
        ensures
            r == self.path,
    {
        copy_opt_string(&self.path)
    }

    /// The git repository, if any.
    pub fn get_git(&self) -> (r: Option<String>)
        ensures
            r == self.git,
    {
        copy_opt_string(&self.git)
    }

    /// The git branch, if any.
    pub fn get_branch(&self) -> (r: Option<String>)
        ensures
            r == self.branch,
    {
        copy_opt_string(&self.branch)
    }

    /// The git tag, if any.
    pub fn get_tag(&self) -> (r: Option<String>)
        ensures
            r == self.tag,
    {
        copy_opt_string(&self.tag)
    }

    /// The enabled features, if any.
    pub fn get_features(&self) -> (r: Option<Vec<String>>)
        ensures
            opt_views(r) == opt_views(self.features),
    {
        copy_opt_strings(&self.features)
    }

    /// The package name when it differs from the crate name.
    pub fn get_package(&self) -> (r: Option<String>)
        ensures
            r == self.package,
    {
        copy_opt_string(&self.package)
    }

    /// The module paths the application uses.
    pub fn get_modules(&self) -> (r: &Vec<String>)
        ensures
            *r == self.modules,
    {
        &self.modules
    }
}

fn versioned(name: &str, version: &str, features: Vec<String>, modules: Vec<String>) -> (p: PackageDependency)
    ensures
        p@ == dependency_view(name@, Some(version@), None, None, Some(views(features@)), views(modules@)),
{
    PackageDependency::new(
        String::from_str(name),
        Some(String::from_str(version)),
        None,
        None,
        None,
        None,
        Some(features),
        None,
        modules,
    )
}

fn versioned_plain(name: &str, version: &str) -> (p: PackageDependency)
    ensures
        p@ == dependency_view(name@, Some(version@), None, None, None, seq![]),
{
    let p = PackageDependency::new(
        String::from_str(name),
        Some(String::from_str(version)),
        None,
        None,
        None,
        None,
        None,
        None,
        Vec::new(),
    );
    assert(p@.modules =~= Seq::<Seq<char>>::empty());
    p
}

/// tokio 1.6.1 with all features.
pub fn default_tokio_package() -> (p: PackageDependency)
    ensures
        p@ == dependency_view("tokio"@, Some("1.6.1"@), None, None, Some(seq!["full"@]), seq![]),
{
    let p = versioned("tokio", "1.6.1", strings_of(&["full"]), Vec::new());
    assert(p@.features.unwrap() =~= seq!["full"@]);
    assert(p@.modules =~= Seq::<Seq<char>>::empty());
    p
}

/// pipebase 0.1.0, with its prelude.
pub fn default_pipebase_package() -> (p: PackageDependency)
    ensures
        p@ == dependency_view("pipebase"@, Some("0.1.0"@), None, None, None, seq!["pipebase::prelude::*"@]),
{
    let p = PackageDependency::new(
        String::from_str("pipebase"),
        Some(String::from_str("0.1.0")),
        None,
        None,
        None,
        None,
        None,
        None,
        strings_of(&["pipebase::prelude::*"]),
    );
    assert(p@.modules =~= seq!["pipebase::prelude::*"@]);
    p
}

/// log 0.4.14.
pub fn default_log_package() -> (p: PackageDependency)
    ensures
        p@ == dependency_view("log"@, Some("0.4.14"@), None, None, None, seq![]),
{
    versioned_plain("log", "0.4.14")
}

/// env_logger 0.8.4.
pub fn default_env_log_package() -> (p: PackageDependency)
    ensures
        p@ == dependency_view("env_logger"@, Some("0.8.4"@), None, None, None, seq![]),
{
    versioned_plain("env_logger", "0.8.4")
}

/// The views of a list of packages.
pub open spec fn packages_view(ps: Seq<PackageDependency>) -> Seq<DependencyView> {
    ps.map_values(|p: PackageDependency| p@)
}

/// The packages every application depends on: pipebase 0.1.0 (its modules
/// used whole), tokio 1.6.1 with all features, log 0.4.14, env_logger 0.8.4,
/// and serde 1.0 with its derive feature and its two traits.
pub fn default_dependencies() -> (r: Vec<PackageDependency>)
    ensures
        packages_view(r@) == seq![
            dependency_view("pipebase"@, Some("0.1.0"@), None, None, None, seq!["pipebase::*"@]),
            dependency_view("tokio"@, Some("1.6.1"@), None, None, Some(seq!["full"@]), seq![]),
            dependency_view("log"@, Some("0.4.14"@), None, None, None, seq![]),
            dependency_view("env_logger"@, Some("0.8.4"@), None, None, None, seq![]),
            dependency_view(
                "serde"@,
                Some("1.0"@),
                None,
                None,
                Some(seq!["derive"@]),
                seq!["serde::Serialize"@, "serde::Deserialize"@],
            ),
        ],
{
    let pipebase = PackageDependency::new(
        String::from_str("pipebase"),
        Some(String::from_str("0.1.0")),
        None,
        None,
        None,
        None,
        None,
        None,
        strings_of(&["pipebase::*"]),
    );
    assert(pipebase@.modules =~= seq!["pipebase::*"@]);
    let tokio = default_tokio_package();
    let log = default_log_package();
    let env_logger = default_env_log_package();
    let serde = versioned("serde", "1.0", strings_of(&["derive"]), strings_of(&["serde::Serialize", "serde::Deserialize"]));
    assert(serde@.features.unwrap() =~= seq!["derive"@]);
    assert(serde@.modules =~= seq!["serde::Serialize"@, "serde::Deserialize"@]);
    let mut r: Vec<PackageDependency> = Vec::new();
    r.push(pipebase);
    r.push(tokio);
    r.push(log);
    r.push(env_logger);
    r.push(serde);
    assert(packages_view(r@) =~= seq![pipebase@, tokio@, log@, env_logger@, serde@]);
    r
}

} // verus!
