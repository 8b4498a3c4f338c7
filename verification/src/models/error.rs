//! The error handler of an application.
use crate::models::dependency::{default_sns_dependency, repo_plugin_view, Dependency, DependencyView, UseCrate};
use crate::models::meta::{
    config_leaves, config_meta, is_leaf_list, is_shape_list, lemma_shape_list_lit,
    meta_leaf, meta_to_literal, meta_value_usize, shape_list_attr, Meta, MetaLeaf, MetaShape,
};
use crate::models::Entity;
use crate::text::{indent_seq, str_eq, views};
use vstd::prelude::*;

verus! {

/// The configuration of an error handler: its type and an optional file path.
#[derive(Debug)]
pub struct ErrorHandlerConfig {
    pub ty: String,
    pub path: Option<String>,
}

impl ErrorHandlerConfig {
    /// The configuration type.
    pub fn get_ty(&self) -> (r: &String)
        ensures
            *r == self.ty,
    {
        &self.ty
    }

    /// The configuration path, if any.
    pub fn get_path(&self) -> (r: Option<&String>)
        ensures
            r == (match self.path {
                Some(p) => Some(&p),
                None => None,
            }),
    {
        self.path.as_ref()
    }
}

/// Where the pipes' errors go, with an optional channel buffer size.
#[derive(Debug)]
pub struct ErrorHandler {
    pub config: ErrorHandlerConfig,
    pub buffer: Option<usize>,
}

/// The members of the `error(..)` attribute: the configuration, then the buffer size when set.
pub open spec fn error_shapes(e: ErrorHandler) -> Seq<MetaShape> {
    let s = seq![MetaShape::LeafList("config"@, config_leaves(e.config.ty@, e.config.path))];
    match e.buffer {
        Some(b) => s.push(MetaShape::Leaf(MetaLeaf::Usize { name: "buffer"@, value: b as nat })),
        None => s,
    }
}

impl ErrorHandler {
    /// A handler with configuration `config` and channel buffer `buffer`.
    pub fn new(config: ErrorHandlerConfig, buffer: Option<usize>) -> (e: Self)
        ensures
            e == (ErrorHandler { config, buffer }),
    {
        ErrorHandler { config, buffer }
    }

    /// The handler's `error(..)` attribute.
    pub fn get_meta(&self) -> (m: Meta)
        ensures
            is_shape_list(m, "error"@, error_shapes(*self)),
    {
        let mut metas: Vec<Meta> = Vec::new();
        metas.push(self.get_config_meta());
        if let Some(meta) = self.get_channel_buffer_meta() {
            metas.push(meta);
        }
        Meta::List { name: String::from_str("error"), metas }
    }

    /// The handler's `config(..)` attribute.
    pub fn get_config_meta(&self) -> (m: Meta)
        ensures
            is_leaf_list(m, "config"@, config_leaves(self.config.ty@, self.config.path)),
    {
        config_meta(&self.config.ty, &self.config.path)
    }

    /// `buffer = n` when a buffer size is set.
    pub fn get_channel_buffer_meta(&self) -> (r: Option<Meta>)
        ensures
            r is Some == self.buffer is Some,
            r is Some ==> meta_leaf(r.unwrap()) == Some(
                MetaLeaf::Usize { name: "buffer"@, value: self.buffer.unwrap() as nat },
            ),
    {
        let buffer = match self.buffer {
            Some(ref buffer) => buffer,
            None => return None,
        };
        Some(meta_value_usize("buffer", buffer))
    }
}

impl Entity for ErrorHandler {
    open spec fn entity_id(&self) -> Seq<char> {
        "error_handler"@
    }

    open spec fn entity_deps(&self) -> Seq<Seq<char>> {
        Seq::empty()
    }

    open spec fn entity_deps_ready(&self) -> bool {
        true
    }

    open spec fn entity_ready(&self) -> bool {
        true
    }

    open spec fn entity_lit(&self, prefix: Seq<char>) -> Seq<char> {
        shape_list_attr("error"@, error_shapes(*self), prefix)
    }

    fn get_id(&self) -> (r: String) {
        String::from_str("error_handler")
    }

    fn list_dependency(&self) -> (r: Vec<String>) {
        let r: Vec<String> = Vec::new();
        assert(views(r@) =~= Seq::<Seq<char>>::empty());
        r
    }

    fn to_literal(&self, indent: usize) -> (r: String) {
        let meta = self.get_meta();
        proof {
            lemma_shape_list_lit(meta, "error"@, error_shapes(*self), indent_seq(indent as nat), false);
        }
        meta_to_literal(&meta, indent)
    }
}

impl UseCrate for ErrorHandler {
    open spec fn used_crate(&self) -> Option<DependencyView> {
        if self.config.ty@ == "SnsPipeErrorPublisherConfig"@ {
            Some(repo_plugin_view("pipesns"@, "pipesns::*"@))
        } else {
            None
        }
    }

    fn get_crate(&self) -> (r: Option<Dependency>) {
        if str_eq(self.config.ty.as_str(), "SnsPipeErrorPublisherConfig") {
            Some(default_sns_dependency())
        } else {
            None
        }
    }
}

} // verus!
