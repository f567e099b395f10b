//! The catalog of packed textures: the packed data roots, the metadata
//! index when one was loaded, and the packed resolver, built by a builder
//! the caller hands in: once, on first use, and never after it was turned
//! off.
use vstd::prelude::*;

use super::packed_index::{names_holding, PackedTextureIndex};
use crate::lexical::{sort_views, sorted};
use crate::text::lower;

verus! {

/// What a lookup needs next from the packed resolver.
#[derive(Debug, Clone, Copy, PartialEq, Eq, Structural)]
pub enum CatalogStep {
    /// Build the resolver now, then call `finish_build`.
    Build,
    /// Use the resolver that was built.
    Ready,
    /// There is no resolver to use: the build gave none, was turned off, or
    /// the index rules the texture out.
    Unavailable,
}

/// `o` refers to the value that `v` holds, or both are empty.
pub open spec fn same_resolver<R>(o: Option<&R>, v: Option<R>) -> bool {
    match (o, v) {
        (Some(a), Some(b)) => *a == b,
        (None, None) => true,
        _ => false,
    }
}

pub struct PackedCatalog<R> {
    packed_roots: Vec<String>,
    typetree_registries: Vec<String>,
    index: Option<PackedTextureIndex>,
    resolver: Option<R>,
    build_attempted: bool,
}

impl<R> PackedCatalog<R> {
    pub closed spec fn spec_attempted(&self) -> bool {
        self.build_attempted
    }

    /// The resolver that was built, if any.
    pub closed spec fn spec_resolver(&self) -> Option<R> {
        self.resolver
    }

    pub open spec fn spec_ready(&self) -> bool {
        self.spec_resolver() is Some
    }

    pub closed spec fn spec_index(&self) -> Option<PackedTextureIndex> {
        self.index
    }

    pub closed spec fn spec_roots(&self) -> Seq<String> {
        self.packed_roots@
    }

    pub closed spec fn spec_registries(&self) -> Seq<String> {
        self.typetree_registries@
    }

    /// The step `next_step` gives.
    pub open spec fn step(&self) -> CatalogStep {
        if !self.spec_attempted() {
            CatalogStep::Build
        } else if self.spec_ready() {
            CatalogStep::Ready
        } else {
            CatalogStep::Unavailable
        }
    }

    /// A catalog that has not built its resolver yet.
    pub fn new(packed_roots: Vec<String>, typetree_registries: Vec<String>, index: Option<PackedTextureIndex>) -> (r: Self)
        ensures
            !r.spec_attempted(),
            r.spec_resolver() is None,
            r.spec_index() == index,
            r.spec_roots() == packed_roots@,
            r.spec_registries() == typetree_registries@,
    {
        PackedCatalog { packed_roots, typetree_registries, index, resolver: None, build_attempted: false }
    }

    pub fn packed_roots(&self) -> (r: &[String])
        ensures
            r@ == self.spec_roots(),
    {
        self.packed_roots.as_slice()
    }

    pub fn typetree_registries(&self) -> (r: &[String])
        ensures
            r@ == self.spec_registries(),
    {
        self.typetree_registries.as_slice()
    }

    /// What using the resolver needs next: building it the first time,
    /// then the built resolver, or nothing when none could be had.
    pub fn next_step(&self) -> (r: CatalogStep)
        ensures
            r == self.step(),
    {
        if !self.build_attempted {
            CatalogStep::Build
        } else if self.resolver.is_some() {
            CatalogStep::Ready
        } else {
            CatalogStep::Unavailable
        }
    }

    /// The packed resolver: built with `build`, from the catalog's roots and
    /// type-tree registries, on the first call that finds no finished build;
    /// a build that fails is reported and tried again on the next call.
    /// Once a build has finished, or the catalog was turned off, `build` is
    /// not called, the catalog stays as it is, and the resolver that was
    /// built (none after turning off) is given back.
    pub fn get<E, F>(&mut self, build: F) -> (r: Result<Option<&R>, E>)
        where F: FnOnce(&[String], &[String]) -> Result<Option<R>, E>,
        requires
            forall|a: &[String], b: &[String]| #[trigger] call_requires(build, (a, b)),
        ensures
            old(self).spec_attempted() ==> *final(self) == *old(self) && (r matches Ok(o) && same_resolver(
                o,
                old(self).spec_resolver(),
            )),
            !old(self).spec_attempted() ==> exists|a: &[String], b: &[String], out: Result<Option<R>, E>|
                {
                    &&& a@ == old(self).spec_roots()
                    &&& b@ == old(self).spec_registries()
                    &&& #[trigger] call_ensures(build, (a, b), out)
                    &&& match out {
                        Ok(v) => {
                            &&& final(self).spec_attempted()
                            &&& final(self).spec_resolver() == v
                            &&& final(self).spec_index() == old(self).spec_index()
                            &&& final(self).spec_roots() == old(self).spec_roots()
                            &&& final(self).spec_registries() == old(self).spec_registries()
                            &&& r matches Ok(o) && same_resolver(o, v)
                        },
                        Err(e) => *final(self) == *old(self) && (r matches Err(x) && x == e),
                    }
                },
    {
        if !self.build_attempted {
            let out = build(self.packed_roots.as_slice(), self.typetree_registries.as_slice());
            match out {
                Ok(v) => {
                    self.resolver = v;
                    self.build_attempted = true;
                },
                Err(e) => {
                    return Err(e);
                },
            }
        }
        Ok(self.resolver.as_ref())
    }

    /// Turns packed lookups off: the resolver is dropped and never built.
    pub fn disable(&mut self)
        ensures
            final(self).spec_attempted(),
            final(self).spec_resolver() is None,
            final(self).spec_index() == old(self).spec_index(),
            final(self).spec_roots() == old(self).spec_roots(),
            final(self).spec_registries() == old(self).spec_registries(),
    {
        self.build_attempted = true;
        self.resolver = None;
    }

    /// Whether packed data may hold the texture: always without an index;
    /// else as the index's `maybe_contains` answers.
    pub fn can_try(&self, tex_path: &str) -> (r: bool)
        ensures
            self.spec_index() is None ==> r,
            self.spec_index() matches Some(i) ==> (r ==> i.may_hold(tex_path@)) && (i.surely_held(tex_path@) ==> r),
    {
        match &self.index {
            Some(i) => i.maybe_contains(tex_path),
            None => true,
        }
    }

    /// The step of a lookup of `tex_path`: nothing to use, without building,
    /// when the index rules the texture out; else `next_step`.
    pub fn lookup_step(&self, tex_path: &str) -> (r: CatalogStep)
        ensures
            r == CatalogStep::Unavailable || r == self.step(),
            self.spec_index() is None ==> r == self.step(),
            self.spec_index() matches Some(i) ==> (i.surely_held(tex_path@) ==> r == self.step()) && (!i.may_hold(
                tex_path@,
            ) ==> r == CatalogStep::Unavailable),
    {
        if !self.can_try(tex_path) {
            CatalogStep::Unavailable
        } else {
            self.next_step()
        }
    }

    /// The index's names holding the lower-cased query, up to `limit`,
    /// sorted; none without an index.
    pub fn search_names(&self, query: &str, limit: usize) -> (r: Option<Vec<String>>)
        ensures
            self.spec_index() is None <==> r is None,
            r matches Some(v) ==> self.spec_index() matches Some(i) && v@.map_values(|s: String| s@) == sort_views(
                names_holding(i.spec_names(), lower(query@)).take(
                    if limit < names_holding(i.spec_names(), lower(query@)).len() {
                        limit as int
                    } else {
                        names_holding(i.spec_names(), lower(query@)).len() as int
                    },
                ).map_values(|s: String| s@),
            ) && sorted(v@) && v@.to_multiset() == names_holding(
                i.spec_names(),
                lower(query@),
            ).take(
                if limit < names_holding(i.spec_names(), lower(query@)).len() {
                    limit as int
                } else {
                    names_holding(i.spec_names(), lower(query@)).len() as int
                },
            ).to_multiset(),
    {
        match &self.index {
            Some(i) => Some(i.search_names(query, limit)),
            None => None,
        }
    }
}

/// The catalog asks for its resolver to be built at most once: once a
/// build was finished or the catalog turned off, no step asks again (and
/// `get` neither builds nor changes the catalog).
pub proof fn lemma_build_asked_once<R>(c: PackedCatalog<R>)
    requires
        c.spec_attempted(),
    ensures
        c.step() != CatalogStep::Build,
{
}

} // verus!
