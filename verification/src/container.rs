//! Storage for WARP functions and types, made up of sources.
use crate::signature::{function_views, Function, FunctionGUID, FunctionView, Type, TypeGUID, TypeView};
use std::collections::HashMap;
use vstd::prelude::*;
use vstd::std_specs::hash::spec_hash_map_iter;
use vstd::std_specs::iter::IteratorSpec;

pub mod disk;
pub mod memory;

verus! {

broadcast use vstd::std_specs::hash::group_hash_axioms;

/// The 128 bits are those of a version 4 (random) UUID of the RFC 4122 variant: the version
/// field (bits 76 to 79) holds 4 and the variant field (bits 62 and 63) holds the bits `10`.
pub open spec fn is_random_uuid(bits: u128) -> bool {
    &&& (bits >> 76u128) & 0xfu128 == 4u128
    &&& (bits >> 62u128) & 0x3u128 == 2u128
}

/// `uuid::Uuid::new_v4`, as the 128 bits of the UUID. The UUID is random; what holds of every
/// outcome is that its version and variant fields are set as for a version 4 UUID (`new_v4`
/// masks random bits and sets both fields).
#[verifier::external_body]
fn random_uuid_bits() -> (r: u128)
    ensures
        is_random_uuid(r),
{
    uuid::Uuid::new_v4().as_u128()
}

/// Represents the ID for a single container source.
///
/// A source is used to relate types and functions separate from the container. This allows
/// type name lookups and for containers which are bandwidth sensitive to exist.
#[derive(Debug, PartialEq, Eq, Hash, Structural)]
pub struct SourceId(pub u128);

impl Clone for SourceId {
    fn clone(&self) -> (r: Self)
        ensures
            r == *self,
    {
        SourceId(self.0)
    }
}

impl Copy for SourceId {

}

impl SourceId {
    /// A new source id, from a random (version 4) UUID.
    pub fn new() -> (r: Self)
        ensures
            is_random_uuid(r.0),
    {
        SourceId(random_uuid_bits())
    }

    /// The source id with the given UUID bits.
    pub fn from_u128(bits: u128) -> (r: Self)
        ensures
            r.0 == bits,
    {
        SourceId(bits)
    }
}

/// The type, if any, as a mathematical value.
pub open spec fn option_type_view(t: Option<Type>) -> Option<TypeView> {
    match t {
        Some(t) => Some(t@),
        None => None,
    }
}

/// Storage for WARP functions.
///
/// Containers are made up of sources, see [`SourceId`] for more details.
pub trait Container {
    /// The container answers queries about this source.
    spec fn accepts_source(&self, source: SourceId) -> bool;

    /// The sources of the container.
    spec fn spec_sources(&self) -> Set<SourceId>;

    /// The type with the GUID in the source, if the source has one.
    spec fn spec_type_with_guid(&self, source: SourceId, guid: TypeGUID) -> Option<TypeView>;

    /// The GUIDs of the types with the name in the source.
    spec fn spec_type_guids_with_name(&self, source: SourceId, name: Seq<char>) -> Seq<TypeGUID>;

    /// The functions with the GUID in the source.
    spec fn spec_functions_with_guid(&self, source: SourceId, guid: FunctionGUID) -> Seq<
        FunctionView,
    >;

    /// Get the sources that contain a type with the given [`TypeGUID`].
    fn sources_with_type_guid(&self, guid: &TypeGUID) -> (r: Vec<SourceId>)
        ensures
            r@.no_duplicates(),
            r@.to_set() == self.spec_sources().filter(
                |s: SourceId| self.spec_type_with_guid(s, *guid) is Some,
            ),
            forall|i: int| 0 <= i < r@.len() ==> self.accepts_source(#[trigger] r@[i]),
    ;

    /// Plural version of [`Container::sources_with_type_guid`].
    ///
    /// Each source will have a list of the containing GUID's so that when looking up a source you
    /// give it only the GUID's that it knows about, for networking this means cutting down traffic
    /// significantly.
    fn sources_with_type_guids(&self, guids: &[TypeGUID]) -> (r: Vec<(SourceId, Vec<TypeGUID>)>)
        ensures
            forall|a: int, b: int|
                0 <= a < r@.len() && 0 <= b < r@.len() && a != b ==> r@[a].0 != r@[b].0,
            forall|a: int|
                0 <= a < r@.len() ==> {
                    &&& self.spec_sources().contains(#[trigger] r@[a].0)
                    &&& self.accepts_source(r@[a].0)
                    &&& r@[a].1@ == guids@.filter(
                        |g: TypeGUID| self.spec_type_with_guid(r@[a].0, g) is Some,
                    )
                    &&& r@[a].1@.len() > 0
                },
            forall|s: SourceId|
                #![trigger self.spec_sources().contains(s)]
                self.spec_sources().contains(s) && guids@.filter(
                    |g: TypeGUID| self.spec_type_with_guid(s, g) is Some,
                ).len() > 0 ==> exists|a: int| 0 <= a < r@.len() && r@[a].0 == s,
    ;

    /// Retrieve all [`TypeGUID`]'s with the given name.
    fn type_guids_with_name(&self, source: &SourceId, name: &str) -> (r: Vec<TypeGUID>)
        requires
            self.accepts_source(*source),
        ensures
            r@ == self.spec_type_guids_with_name(*source, name@),
    ;

    /// The type with the given [`TypeGUID`] in the source, if it has one.
    fn type_with_guid(&self, source: &SourceId, guid: &TypeGUID) -> (r: Option<Type>)
        requires
            self.accepts_source(*source),
        ensures
            option_type_view(r) == self.spec_type_with_guid(*source, *guid),
    ;

    /// Does the source have a type with the given [`TypeGUID`]?
    fn has_type_with_guid(&self, source: &SourceId, guid: &TypeGUID) -> (r: bool)
        requires
            self.accepts_source(*source),
        ensures
            r == self.spec_type_with_guid(*source, *guid) is Some,
    {
        self.type_with_guid(source, guid).is_some()
    }

    /// Get the sources that contain functions with the given [`FunctionGUID`].
    fn sources_with_function_guid(&self, guid: &FunctionGUID) -> (r: Vec<SourceId>)
        ensures
            r@.no_duplicates(),
            r@.to_set() == self.spec_sources().filter(
                |s: SourceId| self.spec_functions_with_guid(s, *guid).len() > 0,
            ),
            forall|i: int| 0 <= i < r@.len() ==> self.accepts_source(#[trigger] r@[i]),
    ;

    /// Plural version of [`Container::sources_with_function_guid`].
    ///
    /// Each source will have a list of the containing GUID's so that when looking up a source you
    /// give it only the GUID's that it knows about, for networking this means cutting down traffic
    /// significantly.
    fn sources_with_function_guids(&self, guids: &[FunctionGUID]) -> (r: Vec<
        (SourceId, Vec<FunctionGUID>),
    >)
        ensures
            forall|a: int, b: int|
                0 <= a < r@.len() && 0 <= b < r@.len() && a != b ==> r@[a].0 != r@[b].0,
            forall|a: int|
                0 <= a < r@.len() ==> {
                    &&& self.spec_sources().contains(#[trigger] r@[a].0)
                    &&& self.accepts_source(r@[a].0)
                    &&& r@[a].1@ == guids@.filter(
                        |g: FunctionGUID| self.spec_functions_with_guid(r@[a].0, g).len() > 0,
                    )
                    &&& r@[a].1@.len() > 0
                },
            forall|s: SourceId|
                #![trigger self.spec_sources().contains(s)]
                self.spec_sources().contains(s) && guids@.filter(
                    |g: FunctionGUID| self.spec_functions_with_guid(s, g).len() > 0,
                ).len() > 0 ==> exists|a: int| 0 <= a < r@.len() && r@[a].0 == s,
    ;

    /// The functions with the given [`FunctionGUID`] in the source.
    fn functions_with_guid(&self, source: &SourceId, guid: &FunctionGUID) -> (r: Vec<Function>)
        requires
            self.accepts_source(*source),
        ensures
            function_views(r@) == self.spec_functions_with_guid(*source, *guid),
    ;

    /// Does the source have a function with the given [`FunctionGUID`]?
    fn has_function_with_guid(&self, source: &SourceId, guid: &FunctionGUID) -> (r: bool)
        requires
            self.accepts_source(*source),
        ensures
            r == (self.spec_functions_with_guid(*source, *guid).len() > 0),
    {
        self.functions_with_guid(source, guid).len() != 0
    }
}


/// For a type GUID among those asked for, the sources that
/// [`Container::sources_with_type_guids`] lists it under are exactly the sources that
/// [`Container::sources_with_type_guid`] returns for it.
pub proof fn lemma_type_guid_queries_agree<C: Container>(
    container: &C,
    guids: Seq<TypeGUID>,
    guid: TypeGUID,
    single: Seq<SourceId>,
    plural: Seq<(SourceId, Vec<TypeGUID>)>,
)
    requires
        guids.contains(guid),
        single.to_set() == container.spec_sources().filter(
            |s: SourceId| container.spec_type_with_guid(s, guid) is Some,
        ),
        forall|a: int|
            0 <= a < plural.len() ==> {
                &&& container.spec_sources().contains(#[trigger] plural[a].0)
                &&& plural[a].1@ == guids.filter(
                    |g: TypeGUID| container.spec_type_with_guid(plural[a].0, g) is Some,
                )
            },
        forall|s: SourceId|
            #![trigger container.spec_sources().contains(s)]
            container.spec_sources().contains(s) && guids.filter(
                |g: TypeGUID| container.spec_type_with_guid(s, g) is Some,
            ).len() > 0 ==> exists|a: int| 0 <= a < plural.len() && plural[a].0 == s,
    ensures
        forall|s: SourceId|
            single.contains(s) <==> exists|a: int|
                0 <= a < plural.len() && plural[a].0 == s && plural[a].1@.contains(guid),
{
    assert forall|s: SourceId|
        single.contains(s) <==> exists|a: int|
            0 <= a < plural.len() && plural[a].0 == s && plural[a].1@.contains(guid) by {
        let p = |g: TypeGUID| container.spec_type_with_guid(s, g) is Some;
        if single.contains(s) {
            assert(single.to_set().contains(s));
            assert(container.spec_sources().contains(s));
            let i = choose|i: int| 0 <= i < guids.len() && guids[i] == guid;
            guids.lemma_filter_contains(p, i);
            assert(guids.filter(p).len() > 0);
            let a = choose|a: int| 0 <= a < plural.len() && plural[a].0 == s;
            assert(plural[a].1@ == guids.filter(p));
        }
        if exists|a: int| 0 <= a < plural.len() && plural[a].0 == s && plural[a].1@.contains(guid) {
            let a = choose|a: int|
                0 <= a < plural.len() && plural[a].0 == s && plural[a].1@.contains(guid);
            assert(plural[a].1@ == guids.filter(p));
            let i = choose|i: int| 0 <= i < guids.filter(p).len() && guids.filter(p)[i] == guid;
            guids.lemma_filter_pred(p, i);
            assert(container.spec_sources().filter(
                |t: SourceId| container.spec_type_with_guid(t, guid) is Some,
            ).contains(s));
            assert(single.to_set().contains(s));
        }
    }
}

/// For a function GUID among those asked for, the sources that
/// [`Container::sources_with_function_guids`] lists it under are exactly the sources that
/// [`Container::sources_with_function_guid`] returns for it.
pub proof fn lemma_function_guid_queries_agree<C: Container>(
    container: &C,
    guids: Seq<FunctionGUID>,
    guid: FunctionGUID,
    single: Seq<SourceId>,
    plural: Seq<(SourceId, Vec<FunctionGUID>)>,
)
    requires
        guids.contains(guid),
        single.to_set() == container.spec_sources().filter(
            |s: SourceId| container.spec_functions_with_guid(s, guid).len() > 0,
        ),
        forall|a: int|
            0 <= a < plural.len() ==> {
                &&& container.spec_sources().contains(#[trigger] plural[a].0)
                &&& plural[a].1@ == guids.filter(
                    |g: FunctionGUID| container.spec_functions_with_guid(plural[a].0, g).len() > 0,
                )
            },
        forall|s: SourceId|
            #![trigger container.spec_sources().contains(s)]
            container.spec_sources().contains(s) && guids.filter(
                |g: FunctionGUID| container.spec_functions_with_guid(s, g).len() > 0,
            ).len() > 0 ==> exists|a: int| 0 <= a < plural.len() && plural[a].0 == s,
    ensures
        forall|s: SourceId|
            single.contains(s) <==> exists|a: int|
                0 <= a < plural.len() && plural[a].0 == s && plural[a].1@.contains(guid),
{
    assert forall|s: SourceId|
        single.contains(s) <==> exists|a: int|
            0 <= a < plural.len() && plural[a].0 == s && plural[a].1@.contains(guid) by {
        let p = |g: FunctionGUID| container.spec_functions_with_guid(s, g).len() > 0;
        if single.contains(s) {
            assert(single.to_set().contains(s));
            assert(container.spec_sources().contains(s));
            let i = choose|i: int| 0 <= i < guids.len() && guids[i] == guid;
            guids.lemma_filter_contains(p, i);
            assert(guids.filter(p).len() > 0);
            let a = choose|a: int| 0 <= a < plural.len() && plural[a].0 == s;
            assert(plural[a].1@ == guids.filter(p));
        }
        if exists|a: int| 0 <= a < plural.len() && plural[a].0 == s && plural[a].1@.contains(guid) {
            let a = choose|a: int|
                0 <= a < plural.len() && plural[a].0 == s && plural[a].1@.contains(guid);
            assert(plural[a].1@ == guids.filter(p));
            let i = choose|i: int| 0 <= i < guids.filter(p).len() && guids.filter(p)[i] == guid;
            guids.lemma_filter_pred(p, i);
            assert(container.spec_sources().filter(
                |t: SourceId| container.spec_functions_with_guid(t, guid).len() > 0,
            ).contains(s));
            assert(single.to_set().contains(s));
        }
    }
}

/// The keys of the map, each once, in the order the map is walked.
pub fn map_keys<V>(m: &HashMap<u128, V>) -> (r: Vec<u128>)
    ensures
        r@.no_duplicates(),
        r@.to_set() == m@.dom(),
{
    let ghost pairs = spec_hash_map_iter(m).remaining();
    let mut r: Vec<u128> = Vec::new();
    let entries = m.iter();
    proof {
        assert forall|i: int, j: int|
            0 <= i < pairs.len() && 0 <= j < pairs.len() && i != j implies *pairs[i].0
            != *pairs[j].0 by {
            if *pairs[i].0 == *pairs[j].0 {
                assert(m@.contains_key(*pairs[i].0) && m@[*pairs[i].0] == *pairs[i].1);
                assert(m@.contains_key(*pairs[j].0) && m@[*pairs[j].0] == *pairs[j].1);
                assert(pairs[i] == pairs[j]);
            }
        }
    }
    for (k, v) in it: entries
        invariant
            pairs == spec_hash_map_iter(m).remaining(),
            it.seq() == pairs,
            forall|i: int, j: int|
                0 <= i < pairs.len() && 0 <= j < pairs.len() && i != j ==> *pairs[i].0
                    != *pairs[j].0,
            r@.len() == it.index(),
            forall|i: int| 0 <= i < it.index() ==> r@[i] == *pairs[i].0,
    {
        r.push(*k);
    }
    proof {
        assert forall|x: u128| r@.to_set().contains(x) <==> m@.dom().contains(x) by {
            if m@.dom().contains(x) {
                assert(pairs.contains((&x, &m@[x])));
                let i = choose|i: int| 0 <= i < pairs.len() && pairs[i] == (&x, &m@[x]);
                assert(r@[i] == x);
            }
            if r@.to_set().contains(x) {
                let i = choose|i: int| 0 <= i < r@.len() && r@[i] == x;
                assert(m@.contains_key(*pairs[i].0));
            }
        }
        assert(r@.to_set() =~= m@.dom());
    }
    r
}

} // verus!
