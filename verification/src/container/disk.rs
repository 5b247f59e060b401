//! A container whose sources are signature files read from disk.
use crate::container::memory::{
    sources_with_function_guid_in, sources_with_function_guids_in, sources_with_type_guid_in,
    sources_with_type_guids_in, has_function, has_type, view_functions_with_guid,
    view_type_guids_with_name, view_type_with_guid, MemorySource, MemorySourceView, SourceQueries,
};
use crate::container::{option_type_view, Container, SourceId};
use crate::signature::{Function, FunctionGUID, FunctionView, Type, TypeGUID, TypeView};
use std::collections::HashMap;
use vstd::prelude::*;

verus! {

broadcast use vstd::std_specs::hash::group_hash_axioms;

/// A signature file: its path, and what it held when it was read.
#[derive(Debug, PartialEq, Eq)]
pub struct DiskContainerSource {
    path: String,
    cache: MemorySource,
}

impl DiskContainerSource {
    /// The file's path.
    pub closed spec fn spec_path(&self) -> Seq<char> {
        self.path@
    }

    /// What the file held when it was read.
    pub closed spec fn spec_cache(&self) -> MemorySourceView {
        self.cache.spec_view()
    }

    /// The source for the file at `path`, holding `cache`, what was read from it.
    pub fn new(path: String, cache: MemorySource) -> (r: Self)
        ensures
            r.spec_path() == path@,
            r.spec_cache() == cache.spec_view(),
    {
        DiskContainerSource { path, cache }
    }

    /// The file's path.
    pub fn path(&self) -> (r: &String)
        ensures
            r@ == self.spec_path(),
    {
        &self.path
    }

    fn type_guids_with_name(&self, name: &str) -> (r: Vec<TypeGUID>)
        ensures
            r@ == view_type_guids_with_name(self.spec_cache().named_types, name@),
    {
        self.cache.type_guids_with_name(name)
    }

    fn type_with_guid(&self, guid: &TypeGUID) -> (r: Option<Type>)
        ensures
            option_type_view(r) == view_type_with_guid(self.spec_cache(), guid.guid),
    {
        self.cache.type_with_guid(guid)
    }

    fn has_type_with_guid(&self, guid: &TypeGUID) -> (r: bool)
        ensures
            r == view_type_with_guid(self.spec_cache(), guid.guid) is Some,
    {
        self.cache.has_type_with_guid(guid)
    }

    fn functions_with_guid(&self, guid: &FunctionGUID) -> (r: Vec<Function>)
        ensures
            crate::signature::function_views(r@) == view_functions_with_guid(self.spec_cache(), guid.guid),
    {
        self.cache.functions_with_guid(guid)
    }

    fn has_function_with_guid(&self, guid: &FunctionGUID) -> (r: bool)
        ensures
            r == (view_functions_with_guid(self.spec_cache(), guid.guid).len() > 0),
    {
        self.cache.has_function_with_guid(guid)
    }

    /// The text the source is shown by: its path.
    pub fn to_string(&self) -> (r: String)
        ensures
            r@ == self.spec_path(),
    {
        self.path.clone()
    }
}

impl SourceQueries for DiskContainerSource {
    open spec fn source_view(&self) -> MemorySourceView {
        self.spec_cache()
    }

    fn source_has_type(&self, guid: &TypeGUID) -> (r: bool) {
        self.has_type_with_guid(guid)
    }

    fn source_has_function(&self, guid: &FunctionGUID) -> (r: bool) {
        self.has_function_with_guid(guid)
    }
}

/// A container made of signature files, each a source.
#[derive(Debug)]
pub struct DiskContainer {
    name: String,
    sources: HashMap<u128, DiskContainerSource>,
}

impl View for DiskContainer {
    type V = Map<u128, MemorySourceView>;

    closed spec fn view(&self) -> Map<u128, MemorySourceView> {
        self.sources@.map_values(|s: DiskContainerSource| s.spec_cache())
    }
}

impl DiskContainer {
    /// The container's name.
    pub closed spec fn spec_name(&self) -> Seq<char> {
        self.name@
    }

    /// The paths of the container's sources.
    pub closed spec fn spec_paths(&self) -> Map<u128, Seq<char>> {
        self.sources@.map_values(|s: DiskContainerSource| s.spec_path())
    }

    /// The container named `name`, with `sources` by the 128 bits of their ids.
    pub fn new(name: String, sources: HashMap<u128, DiskContainerSource>) -> (r: Self)
        ensures
            r.spec_name() == name@,
            r@ == sources@.map_values(|s: DiskContainerSource| s.spec_cache()),
            r.spec_paths() == sources@.map_values(|s: DiskContainerSource| s.spec_path()),
    {
        DiskContainer { name, sources }
    }

    /// The text the container is shown by: its name.
    pub fn to_string(&self) -> (r: String)
        ensures
            r@ == self.spec_name(),
    {
        self.name.clone()
    }
}

impl Container for DiskContainer {
    open spec fn accepts_source(&self, source: SourceId) -> bool {
        self@.dom().contains(source.0)
    }

    open spec fn spec_sources(&self) -> Set<SourceId> {
        Set::new(|s: SourceId| self@.dom().contains(s.0))
    }

    open spec fn spec_type_with_guid(&self, source: SourceId, guid: TypeGUID) -> Option<TypeView> {
        if self@.dom().contains(source.0) {
            view_type_with_guid(self@[source.0], guid.guid)
        } else {
            None
        }
    }

    open spec fn spec_type_guids_with_name(&self, source: SourceId, name: Seq<char>) -> Seq<TypeGUID> {
        if self@.dom().contains(source.0) {
            view_type_guids_with_name(self@[source.0].named_types, name)
        } else {
            Seq::empty()
        }
    }

    open spec fn spec_functions_with_guid(&self, source: SourceId, guid: FunctionGUID) -> Seq<
        FunctionView,
    > {
        if self@.dom().contains(source.0) {
            view_functions_with_guid(self@[source.0], guid.guid)
        } else {
            Seq::empty()
        }
    }

    fn sources_with_type_guid(&self, guid: &TypeGUID) -> (r: Vec<SourceId>) {
        let r = sources_with_type_guid_in(&self.sources, guid);
        proof {
            assert(r@.to_set() =~= self.spec_sources().filter(
                |s: SourceId| self.spec_type_with_guid(s, *guid) is Some,
            ));
            assert forall|i: int| 0 <= i < r@.len() implies self.accepts_source(#[trigger] r@[i]) by {
                assert(r@.to_set().contains(r@[i]));
            }
        }
        r
    }

    fn sources_with_type_guids(&self, guids: &[TypeGUID]) -> (r: Vec<(SourceId, Vec<TypeGUID>)>) {
        let r = sources_with_type_guids_in(&self.sources, guids);
        proof {
            assert forall|s: SourceId| #[trigger] self.spec_sources().contains(s) implies (|g: TypeGUID|
                self.spec_type_with_guid(s, g) is Some) =~= has_type(self.sources@[s.0].source_view()) by {}
            assert forall|a: int| 0 <= a < r@.len() implies {
                &&& self.spec_sources().contains(#[trigger] r@[a].0)
                &&& self.accepts_source(r@[a].0)
                &&& r@[a].1@ == guids@.filter(
                    |g: TypeGUID| self.spec_type_with_guid(r@[a].0, g) is Some,
                )
                &&& r@[a].1@.len() > 0
            } by {
                assert(self.spec_sources().contains(r@[a].0));
            }
        }
        r
    }

    fn type_guids_with_name(&self, source: &SourceId, name: &str) -> (r: Vec<TypeGUID>) {
        match self.sources.get(&source.0) {
            Some(s) => s.type_guids_with_name(name),
            None => Vec::new(),
        }
    }

    fn type_with_guid(&self, source: &SourceId, guid: &TypeGUID) -> (r: Option<Type>) {
        match self.sources.get(&source.0) {
            Some(s) => s.type_with_guid(guid),
            None => None,
        }
    }

    fn sources_with_function_guid(&self, guid: &FunctionGUID) -> (r: Vec<SourceId>) {
        let r = sources_with_function_guid_in(&self.sources, guid);
        proof {
            assert(r@.to_set() =~= self.spec_sources().filter(
                |s: SourceId| self.spec_functions_with_guid(s, *guid).len() > 0,
            ));
            assert forall|i: int| 0 <= i < r@.len() implies self.accepts_source(#[trigger] r@[i]) by {
                assert(r@.to_set().contains(r@[i]));
            }
        }
        r
    }

    fn sources_with_function_guids(&self, guids: &[FunctionGUID]) -> (r: Vec<
        (SourceId, Vec<FunctionGUID>),
    >) {
        let r = sources_with_function_guids_in(&self.sources, guids);
        proof {
            assert forall|s: SourceId| #[trigger] self.spec_sources().contains(s) implies (|g: FunctionGUID|
                self.spec_functions_with_guid(s, g).len() > 0) =~= has_function(self.sources@[s.0].source_view()) by {}
            assert forall|a: int| 0 <= a < r@.len() implies {
                &&& self.spec_sources().contains(#[trigger] r@[a].0)
                &&& self.accepts_source(r@[a].0)
                &&& r@[a].1@ == guids@.filter(
                    |g: FunctionGUID| self.spec_functions_with_guid(r@[a].0, g).len() > 0,
                )
                &&& r@[a].1@.len() > 0
            } by {
                assert(self.spec_sources().contains(r@[a].0));
            }
        }
        r
    }

    fn functions_with_guid(&self, source: &SourceId, guid: &FunctionGUID) -> (r: Vec<Function>) {
        match self.sources.get(&source.0) {
            Some(s) => s.functions_with_guid(guid),
            None => Vec::new(),
        }
    }
}

} // verus!
