//! The manifest model: applications, pipes, objects, attributes and crate dependencies.
pub mod app;
pub mod constants;
pub mod context;
pub mod data;
pub mod dependency;
pub mod error;
pub mod function;
pub mod meta;
pub mod package;
pub mod pipe;
pub mod schema;

use crate::text::{indent_seq, views};
use vstd::prelude::*;

verus! {

/// An item of a manifest: it has an id, may depend on other items by id, and
/// renders as Rust source.
pub trait Entity {
    /// The item's id.
    spec fn entity_id(&self) -> Seq<char>;

    /// The ids the item depends on, in order.
    spec fn entity_deps(&self) -> Seq<Seq<char>>;

    /// The item's dependencies can be listed.
    spec fn entity_deps_ready(&self) -> bool;

    /// The item is ready to be rendered.
    spec fn entity_ready(&self) -> bool;

    /// The item's source text at indentation `prefix`.
    spec fn entity_lit(&self, prefix: Seq<char>) -> Seq<char>;

    fn get_id(&self) -> (r: String)
        ensures
            r@ == self.entity_id(),
    ;

    fn list_dependency(&self) -> (r: Vec<String>)
        requires
            self.entity_deps_ready(),
        ensures
            views(r@) == self.entity_deps(),
    ;

    fn to_literal(&self, indent: usize) -> (r: String)
        requires
            self.entity_ready(),
        ensures
            r@ == self.entity_lit(indent_seq(indent as nat)),
    ;
}

/// A visitor that collects what it needs from entities of type `E`.
pub trait VisitEntity<E>: Sized {
    /// What visiting `e` does to the visitor.
    spec fn visited(old: Self, new: Self, e: E) -> bool;

    fn visit(&mut self, entity: &E)
        ensures
            Self::visited(*old(self), *final(self), *entity),
    ;
}

/// An entity that hands itself to a visitor.
pub trait EntityAccept<V: VisitEntity<Self>>: Sized + Entity {
    fn accept_entity_visitor(&self, v: &mut V)
        ensures
            V::visited(*old(v), *final(v), *self),
    {
        v.visit(self)
    }
}

} // verus!
