//! Context stores of an application.
use crate::models::dependency::{default_warp_dependency, plugin_view, Dependency, DependencyView, UseCrate};
use crate::models::meta::{config_leaves, config_meta, lemma_shape_list_lit, meta_to_literal, meta_value_str, shape_list_attr, Meta, MetaLeaf, MetaShape, is_shape_list};
use crate::models::Entity;
use crate::text::{indent_seq, str_eq, views};
use vstd::prelude::*;

verus! {

/// The configuration of a context store: its type and an optional file path.
#[derive(Debug)]
pub struct ContextStoreConfig {
    pub ty: String,
    pub path: Option<String>,
}

impl ContextStoreConfig {
    /// The configuration type.
    pub fn get_ty(&self) -> (r: &String)
        ensures
            *r == self.ty,
    {
        &self.ty
    }

    /// The configuration path, if any.
    pub fn get_path(&self) -> (r: Option<&String>)
        ensures
            r == (match self.path {
                Some(p) => Some(&p),
                None => None,
            }),
    {
        self.path.as_ref()
    }
}

/// A named context store.
#[derive(Debug)]
pub struct ContextStore {
    pub name: String,
    pub config: ContextStoreConfig,
}

/// The members of a store's `cstore(..)` attribute: its name and its configuration.
pub open spec fn cstore_shapes(c: ContextStore) -> Seq<MetaShape> {
    seq![
        MetaShape::Leaf(MetaLeaf::Str { name: "name"@, value: c.name@, raw: false }),
        MetaShape::LeafList("config"@, config_leaves(c.config.ty@, c.config.path)),
    ]
}

impl ContextStore {
    /// A store named `name` with configuration `config`.
    pub fn new(name: String, config: ContextStoreConfig) -> (c: Self)
        ensures
            c == (ContextStore { name, config }),
    {
        ContextStore { name, config }
    }

    /// The store's `cstore(..)` attribute.
    pub fn get_meta(&self) -> (m: Meta)
        ensures
            is_shape_list(m, "cstore"@, cstore_shapes(*self)),
    {
        let mut metas: Vec<Meta> = Vec::new();
        metas.push(meta_value_str("name", self.name.as_str(), false));
        metas.push(self.get_config_meta());
        Meta::List { name: String::from_str("cstore"), metas }
    }

    /// The store's `config(..)` attribute.
    pub fn get_config_meta(&self) -> (m: Meta)
        ensures
            crate::models::meta::is_leaf_list(m, "config"@, config_leaves(self.config.ty@, self.config.path)),
    {
        config_meta(&self.config.ty, &self.config.path)
    }
}

impl Entity for ContextStore {
    open spec fn entity_id(&self) -> Seq<char> {
        self.name@
    }

    open spec fn entity_deps(&self) -> Seq<Seq<char>> {
        Seq::empty()
    }

    open spec fn entity_deps_ready(&self) -> bool {
        true
    }

    open spec fn entity_ready(&self) -> bool {
        true
    }

    open spec fn entity_lit(&self, prefix: Seq<char>) -> Seq<char> {
        shape_list_attr("cstore"@, cstore_shapes(*self), prefix)
    }

    fn get_id(&self) -> (r: String) {
        self.name.clone()
    }

    fn list_dependency(&self) -> (r: Vec<String>) {
        let r: Vec<String> = Vec::new();
        assert(views(r@) =~= Seq::<Seq<char>>::empty());
        r
    }

    fn to_literal(&self, indent: usize) -> (r: String) {
        let meta = self.get_meta();
        proof {
            lemma_shape_list_lit(meta, "cstore"@, cstore_shapes(*self), indent_seq(indent as nat), false);
        }
        meta_to_literal(&meta, indent)
    }
}

impl UseCrate for ContextStore {
    open spec fn used_crate(&self) -> Option<DependencyView> {
        if self.config.ty@ == "WarpContextServerConfig"@ {
            Some(plugin_view("pipewarp"@, "0.1.4"@, "pipewarp::*"@))
        } else {
            None
        }
    }

    fn get_crate(&self) -> (r: Option<Dependency>) {
        if str_eq(self.config.ty.as_str(), "WarpContextServerConfig") {
            Some(default_warp_dependency())
        } else {
            None
        }
    }
}

} // verus!
