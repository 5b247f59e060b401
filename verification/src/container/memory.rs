//! A container, and a source, held in memory.
use crate::container::{map_keys, option_type_view, Container, SourceId};
use crate::signature::{
    clone_functions, function_views, ComputedType, Data, Function, FunctionGUID, FunctionView, Type, TypeGUID,
    TypeView,
};
use std::collections::HashMap;
use vstd::prelude::*;

verus! {

broadcast use vstd::std_specs::hash::group_hash_axioms;

/// What a source holds, as a mathematical value: the functions by GUID, the types by GUID,
/// and the GUIDs of the types by name.
#[verifier::ext_equal]
pub struct MemorySourceView {
    pub functions: Map<u128, Seq<FunctionView>>,
    pub types: Map<u128, TypeView>,
    pub named_types: Seq<(Seq<char>, Seq<TypeGUID>)>,
}

/// The functions with the GUID in the source, none if it has none.
pub open spec fn view_functions_with_guid(v: MemorySourceView, guid: u128) -> Seq<FunctionView> {
    if v.functions.dom().contains(guid) {
        v.functions[guid]
    } else {
        Seq::empty()
    }
}

/// The type with the GUID in the source, if any.
pub open spec fn view_type_with_guid(v: MemorySourceView, guid: u128) -> Option<TypeView> {
    if v.types.dom().contains(guid) {
        Some(v.types[guid])
    } else {
        None
    }
}

/// The GUIDs listed under the first entry with the name, none if no entry has it.
pub open spec fn view_type_guids_with_name(
    named: Seq<(Seq<char>, Seq<TypeGUID>)>,
    name: Seq<char>,
) -> Seq<TypeGUID>
    decreases named.len(),
{
    if named.len() == 0 {
        Seq::empty()
    } else if named[0].0 == name {
        named[0].1
    } else {
        view_type_guids_with_name(named.drop_first(), name)
    }
}

/// A source whose types and functions can be looked up by GUID.
pub trait SourceQueries {
    /// What the source holds.
    spec fn source_view(&self) -> MemorySourceView;

    /// Does the source have a type with the GUID?
    fn source_has_type(&self, guid: &TypeGUID) -> (r: bool)
        ensures
            r == self.source_view().types.dom().contains(guid.guid),
    ;

    /// Does the source have a function with the GUID?
    fn source_has_function(&self, guid: &FunctionGUID) -> (r: bool)
        ensures
            r == (view_functions_with_guid(self.source_view(), guid.guid).len() > 0),
    ;
}

/// An in-memory store of functions.
///
/// While not technically a container source, this is typically an overlay on top of a container
/// source.
#[derive(Debug, Clone, PartialEq, Eq)]
pub struct MemorySource {
    /// The functions, by the 128 bits of their GUID.
    pub functions: HashMap<u128, Vec<Function>>,
    /// The types, by the 128 bits of their GUID.
    pub types: HashMap<u128, Type>,
    /// The GUIDs of the named types, by name; a name is looked up in its first entry.
    pub named_types: Vec<(String, Vec<TypeGUID>)>,
}

impl MemorySource {
    /// What the source holds, as a mathematical value.
    pub open spec fn spec_view(&self) -> MemorySourceView {
        MemorySourceView {
            functions: self.functions@.map_values(|fs: Vec<Function>| function_views(fs@)),
            types: self.types@.map_values(|t: Type| t@),
            named_types: self.named_types@.map_values(
                |e: (String, Vec<TypeGUID>)| (e.0@, e.1@),
            ),
        }
    }

    /// An empty source.
    pub fn new() -> (r: Self)
        ensures
            r.functions@ == Map::<u128, Vec<Function>>::empty(),
            r.types@ == Map::<u128, Type>::empty(),
            r.named_types@ == Seq::<(String, Vec<TypeGUID>)>::empty(),
    {
        MemorySource { functions: HashMap::new(), types: HashMap::new(), named_types: Vec::new() }
    }

    /// The GUIDs of the types with the given name.
    pub fn type_guids_with_name(&self, name: &str) -> (r: Vec<TypeGUID>)
        ensures
            r@ == view_type_guids_with_name(self.spec_view().named_types, name@),
    {
        let ghost named = self.spec_view().named_types;
        let wanted = name.to_owned();
        let mut i: usize = 0;
        proof {
            assert(named.skip(0) =~= named);
        }
        while i < self.named_types.len()
            invariant
                i <= self.named_types@.len(),
                named == self.spec_view().named_types,
                wanted@ == name@,
                view_type_guids_with_name(named, name@) == view_type_guids_with_name(
                    named.skip(i as int),
                    name@,
                ),
            decreases self.named_types@.len() - i,
        {
            proof {
                assert(named.skip(i as int)[0] == named[i as int]);
                assert(named.skip(i as int).drop_first() =~= named.skip(i + 1));
            }
            if self.named_types[i].0 == wanted {
                return self.named_types[i].1.clone();
            }
            i = i + 1;
        }
        proof {
            assert(named.skip(i as int).len() == 0);
        }
        Vec::new()
    }

    /// The type with the given GUID, if the source has one.
    pub fn type_with_guid(&self, guid: &TypeGUID) -> (r: Option<Type>)
        ensures
            option_type_view(r) == view_type_with_guid(self.spec_view(), guid.guid),
    {
        match self.types.get(&guid.guid) {
            Some(ty) => Some(ty.clone()),
            None => None,
        }
    }

    /// The functions with the given GUID.
    pub fn functions_with_guid(&self, guid: &FunctionGUID) -> (r: Vec<Function>)
        ensures
            function_views(r@) == view_functions_with_guid(self.spec_view(), guid.guid),
    {
        match self.functions.get(&guid.guid) {
            Some(functions) => clone_functions(functions),
            None => {
                proof {
                    assert(function_views(Seq::<Function>::empty()) =~= Seq::<FunctionView>::empty());
                }
                Vec::new()
            },
        }
    }

    /// Does the source have a type with the given GUID?
    pub fn has_type_with_guid(&self, guid: &TypeGUID) -> (r: bool)
        ensures
            r == view_type_with_guid(self.spec_view(), guid.guid) is Some,
    {
        self.type_with_guid(guid).is_some()
    }

    /// Does the source have a function with the given GUID?
    pub fn has_function_with_guid(&self, guid: &FunctionGUID) -> (r: bool)
        ensures
            r == (view_functions_with_guid(self.spec_view(), guid.guid).len() > 0),
    {
        self.functions_with_guid(guid).len() != 0
    }
}

impl SourceQueries for MemorySource {
    open spec fn source_view(&self) -> MemorySourceView {
        self.spec_view()
    }

    fn source_has_type(&self, guid: &TypeGUID) -> (r: bool) {
        self.has_type_with_guid(guid)
    }

    fn source_has_function(&self, guid: &FunctionGUID) -> (r: bool) {
        self.has_function_with_guid(guid)
    }
}

impl Default for MemorySource {
    fn default() -> (r: Self)
        ensures
            r.functions@ == Map::<u128, Vec<Function>>::empty(),
            r.types@ == Map::<u128, Type>::empty(),
            r.named_types@ == Seq::<(String, Vec<TypeGUID>)>::empty(),
    {
        MemorySource::new()
    }
}


/// The source has a type with the GUID.
pub open spec fn has_type(v: MemorySourceView) -> spec_fn(TypeGUID) -> bool {
    |g: TypeGUID| v.types.dom().contains(g.guid)
}

/// The source has a function with the GUID.
pub open spec fn has_function(v: MemorySourceView) -> spec_fn(FunctionGUID) -> bool {
    |g: FunctionGUID| view_functions_with_guid(v, g.guid).len() > 0
}

/// The ids of the sources in `sources` that have a type with the GUID, each once.
pub fn sources_with_type_guid_in<V: SourceQueries>(sources: &HashMap<u128, V>, guid: &TypeGUID) -> (r:
    Vec<SourceId>)
    ensures
        r@.no_duplicates(),
        forall|s: SourceId|
            r@.to_set().contains(s) <==> sources@.contains_key(s.0) && (has_type(
                sources@[s.0].source_view(),
            ))(*guid),
{
    let keys = map_keys(sources);
    let mut r: Vec<SourceId> = Vec::new();
    let mut i: usize = 0;
    while i < keys.len()
        invariant
            i <= keys@.len(),
            keys@.no_duplicates(),
            keys@.to_set() == sources@.dom(),
            forall|a: int| 0 <= a < r@.len() ==> exists|k: int| 0 <= k < i && keys@[k] == (#[trigger] r@[a]).0,
            r@.no_duplicates(),
            forall|s: SourceId|
                r@.to_set().contains(s) <==> exists|k: int|
                    0 <= k < i && keys@[k] == s.0 && (has_type(sources@[s.0].source_view()))(*guid),
        decreases keys@.len() - i,
    {
        let id = keys[i];
        proof {
            assert(keys@.to_set().contains(id));
        }
        let ghost before = r@;
        if let Some(source) = sources.get(&id) {
            if source.source_has_type(guid) {
                r.push(SourceId(id));
                proof {
                    assert forall|a: int| 0 <= a < before.len() implies before[a] != SourceId(id) by {
                        let k = choose|k: int| 0 <= k < i && keys@[k] == before[a].0;
                    }
                    assert(r@ =~= before.push(SourceId(id)));
                    before.lemma_push_to_set_commute(SourceId(id));
                }
            }
        }
        proof {
            assert forall|a: int| 0 <= a < r@.len() implies exists|k: int|
                0 <= k < i + 1 && keys@[k] == (#[trigger] r@[a]).0 by {
                if a < before.len() {
                    assert(r@[a] == before[a]);
                    let k = choose|k: int| 0 <= k < i && keys@[k] == before[a].0;
                } else {
                    assert(keys@[i as int] == r@[a].0);
                }
            }
            assert forall|s: SourceId|
                r@.to_set().contains(s) <==> exists|k: int|
                    0 <= k < i + 1 && keys@[k] == s.0 && (has_type(sources@[s.0].source_view()))(*guid) by {
                if exists|k: int|
                    0 <= k < i + 1 && keys@[k] == s.0 && (has_type(sources@[s.0].source_view()))(*guid) {
                    let k = choose|k: int|
                        0 <= k < i + 1 && keys@[k] == s.0 && (has_type(sources@[s.0].source_view()))(*guid);
                    if k < i {
                        assert(before.to_set().contains(s));
                    } else {
                        assert(r@[r@.len() - 1] == s);
                    }
                }
                if r@.to_set().contains(s) && !before.to_set().contains(s) {
                    assert(s == SourceId(id));
                }
            }
        }
        i = i + 1;
    }
    proof {
        assert forall|s: SourceId|
            r@.to_set().contains(s) <==> sources@.contains_key(s.0) && (has_type(
                sources@[s.0].source_view(),
            ))(*guid) by {
            if sources@.contains_key(s.0) {
                assert(keys@.to_set().contains(s.0));
            }
        }
    }
    r
}


/// The GUIDs among `guids` that the source has a type for, in their order.
fn type_guids_present<V: SourceQueries>(source: &V, guids: &[TypeGUID]) -> (r: Vec<TypeGUID>)
    ensures
        r@ == guids@.filter(has_type(source.source_view())),
{
    let ghost pred = has_type(source.source_view());
    let mut r: Vec<TypeGUID> = Vec::new();
    let mut j: usize = 0;
    proof {
        reveal_with_fuel(Seq::<_>::filter, 1);
        assert(guids@.take(0) =~= Seq::<TypeGUID>::empty());
    }
    while j < guids.len()
        invariant
            j <= guids@.len(),
            pred == has_type(source.source_view()),
            r@ == guids@.take(j as int).filter(pred),
        decreases guids@.len() - j,
    {
        proof {
            reveal_with_fuel(Seq::<_>::filter, 1);
            assert(guids@.take(j + 1).drop_last() =~= guids@.take(j as int));
        }
        if source.source_has_type(&guids[j]) {
            r.push(guids[j]);
        }
        j = j + 1;
    }
    proof {
        assert(guids@.take(guids@.len() as int) =~= guids@);
    }
    r
}

/// For each source in `sources` that has a type for one of `guids`, its id and those GUIDs.
pub fn sources_with_type_guids_in<V: SourceQueries>(
    sources: &HashMap<u128, V>,
    guids: &[TypeGUID],
) -> (r: Vec<(SourceId, Vec<TypeGUID>)>)
    ensures
        forall|a: int, b: int| 0 <= a < r@.len() && 0 <= b < r@.len() && a != b ==> r@[a].0 != r@[b].0,
        forall|a: int|
            0 <= a < r@.len() ==> {
                &&& sources@.contains_key((#[trigger] r@[a]).0.0)
                &&& r@[a].1@ == guids@.filter(has_type(sources@[r@[a].0.0].source_view()))
                &&& r@[a].1@.len() > 0
            },
        forall|id: u128|
            sources@.contains_key(id) && guids@.filter(has_type(sources@[id].source_view())).len() > 0
                ==> exists|a: int| 0 <= a < r@.len() && r@[a].0.0 == id,
{
    let keys = map_keys(sources);
    let mut r: Vec<(SourceId, Vec<TypeGUID>)> = Vec::new();
    let mut i: usize = 0;
    while i < keys.len()
        invariant
            i <= keys@.len(),
            keys@.no_duplicates(),
            keys@.to_set() == sources@.dom(),
            forall|a: int| 0 <= a < r@.len() ==> exists|k: int| 0 <= k < i && keys@[k] == (#[trigger] r@[a]).0.0,
            forall|a: int, b: int| 0 <= a < r@.len() && 0 <= b < r@.len() && a != b ==> r@[a].0 != r@[b].0,
            forall|a: int|
                0 <= a < r@.len() ==> {
                    &&& sources@.contains_key((#[trigger] r@[a]).0.0)
                    &&& r@[a].1@ == guids@.filter(has_type(sources@[r@[a].0.0].source_view()))
                    &&& r@[a].1@.len() > 0
                },
            forall|k: int|
                0 <= k < i && guids@.filter(has_type(sources@[keys@[k]].source_view())).len() > 0
                    ==> exists|a: int| 0 <= a < r@.len() && r@[a].0.0 == keys@[k],
        decreases keys@.len() - i,
    {
        let id = keys[i];
        proof {
            assert(keys@.to_set().contains(id));
        }
        let ghost before = r@;
        if let Some(source) = sources.get(&id) {
            let present = type_guids_present(source, guids);
            if present.len() != 0 {
                r.push((SourceId(id), present));
                proof {
                    assert forall|a: int| 0 <= a < before.len() implies before[a].0 != SourceId(id) by {
                        let k = choose|k: int| 0 <= k < i && keys@[k] == before[a].0.0;
                    }
                }
            }
        }
        proof {
            assert forall|a: int| 0 <= a < r@.len() implies exists|k: int|
                0 <= k < i + 1 && keys@[k] == (#[trigger] r@[a]).0.0 by {
                if a < before.len() {
                    assert(r@[a] == before[a]);
                    let k = choose|k: int| 0 <= k < i && keys@[k] == before[a].0.0;
                } else {
                    assert(keys@[i as int] == r@[a].0.0);
                }
            }
            assert forall|k: int|
                0 <= k < i + 1 && guids@.filter(has_type(sources@[keys@[k]].source_view())).len() > 0
                    implies exists|a: int| 0 <= a < r@.len() && r@[a].0.0 == keys@[k] by {
                if k < i {
                    let a = choose|a: int| 0 <= a < before.len() && before[a].0.0 == keys@[k];
                    assert(r@[a] == before[a]);
                } else {
                    assert(r@[r@.len() - 1].0.0 == keys@[k]);
                }
            }
        }
        i = i + 1;
    }
    proof {
        assert forall|id: u128|
            sources@.contains_key(id) && guids@.filter(has_type(sources@[id].source_view())).len() > 0
                implies exists|a: int| 0 <= a < r@.len() && r@[a].0.0 == id by {
            assert(keys@.to_set().contains(id));
            let k = choose|k: int| 0 <= k < keys@.len() && keys@[k] == id;
        }
    }
    r
}

/// The ids of the sources in `sources` that have a function with the GUID, each once.
pub fn sources_with_function_guid_in<V: SourceQueries>(sources: &HashMap<u128, V>, guid: &FunctionGUID) -> (r:
    Vec<SourceId>)
    ensures
        r@.no_duplicates(),
        forall|s: SourceId|
            r@.to_set().contains(s) <==> sources@.contains_key(s.0) && (has_function(
                sources@[s.0].source_view(),
            ))(*guid),
{
    let keys = map_keys(sources);
    let mut r: Vec<SourceId> = Vec::new();
    let mut i: usize = 0;
    while i < keys.len()
        invariant
            i <= keys@.len(),
            keys@.no_duplicates(),
            keys@.to_set() == sources@.dom(),
            forall|a: int| 0 <= a < r@.len() ==> exists|k: int| 0 <= k < i && keys@[k] == (#[trigger] r@[a]).0,
            r@.no_duplicates(),
            forall|s: SourceId|
                r@.to_set().contains(s) <==> exists|k: int|
                    0 <= k < i && keys@[k] == s.0 && (has_function(sources@[s.0].source_view()))(*guid),
        decreases keys@.len() - i,
    {
        let id = keys[i];
        proof {
            assert(keys@.to_set().contains(id));
        }
        let ghost before = r@;
        if let Some(source) = sources.get(&id) {
            if source.source_has_function(guid) {
                r.push(SourceId(id));
                proof {
                    assert forall|a: int| 0 <= a < before.len() implies before[a] != SourceId(id) by {
                        let k = choose|k: int| 0 <= k < i && keys@[k] == before[a].0;
                    }
                    assert(r@ =~= before.push(SourceId(id)));
                    before.lemma_push_to_set_commute(SourceId(id));
                }
            }
        }
        proof {
            assert forall|a: int| 0 <= a < r@.len() implies exists|k: int|
                0 <= k < i + 1 && keys@[k] == (#[trigger] r@[a]).0 by {
                if a < before.len() {
                    assert(r@[a] == before[a]);
                    let k = choose|k: int| 0 <= k < i && keys@[k] == before[a].0;
                } else {
                    assert(keys@[i as int] == r@[a].0);
                }
            }
            assert forall|s: SourceId|
                r@.to_set().contains(s) <==> exists|k: int|
                    0 <= k < i + 1 && keys@[k] == s.0 && (has_function(sources@[s.0].source_view()))(*guid) by {
                if exists|k: int|
                    0 <= k < i + 1 && keys@[k] == s.0 && (has_function(sources@[s.0].source_view()))(*guid) {
                    let k = choose|k: int|
                        0 <= k < i + 1 && keys@[k] == s.0 && (has_function(sources@[s.0].source_view()))(*guid);
                    if k < i {
                        assert(before.to_set().contains(s));
                    } else {
                        assert(r@[r@.len() - 1] == s);
                    }
                }
                if r@.to_set().contains(s) && !before.to_set().contains(s) {
                    assert(s == SourceId(id));
                }
            }
        }
        i = i + 1;
    }
    proof {
        assert forall|s: SourceId|
            r@.to_set().contains(s) <==> sources@.contains_key(s.0) && (has_function(
                sources@[s.0].source_view(),
            ))(*guid) by {
            if sources@.contains_key(s.0) {
                assert(keys@.to_set().contains(s.0));
            }
        }
    }
    r
}


/// The GUIDs among `guids` that the source has a function for, in their order.
fn function_guids_present<V: SourceQueries>(source: &V, guids: &[FunctionGUID]) -> (r: Vec<FunctionGUID>)
    ensures
        r@ == guids@.filter(has_function(source.source_view())),
{
    let ghost pred = has_function(source.source_view());
    let mut r: Vec<FunctionGUID> = Vec::new();
    let mut j: usize = 0;
    proof {
        reveal_with_fuel(Seq::<_>::filter, 1);
        assert(guids@.take(0) =~= Seq::<FunctionGUID>::empty());
    }
    while j < guids.len()
        invariant
            j <= guids@.len(),
            pred == has_function(source.source_view()),
            r@ == guids@.take(j as int).filter(pred),
        decreases guids@.len() - j,
    {
        proof {
            reveal_with_fuel(Seq::<_>::filter, 1);
            assert(guids@.take(j + 1).drop_last() =~= guids@.take(j as int));
        }
        if source.source_has_function(&guids[j]) {
            r.push(guids[j]);
        }
        j = j + 1;
    }
    proof {
        assert(guids@.take(guids@.len() as int) =~= guids@);
    }
    r
}

/// For each source in `sources` that has a function for one of `guids`, its id and those GUIDs.
pub fn sources_with_function_guids_in<V: SourceQueries>(
    sources: &HashMap<u128, V>,
    guids: &[FunctionGUID],
) -> (r: Vec<(SourceId, Vec<FunctionGUID>)>)
    ensures
        forall|a: int, b: int| 0 <= a < r@.len() && 0 <= b < r@.len() && a != b ==> r@[a].0 != r@[b].0,
        forall|a: int|
            0 <= a < r@.len() ==> {
                &&& sources@.contains_key((#[trigger] r@[a]).0.0)
                &&& r@[a].1@ == guids@.filter(has_function(sources@[r@[a].0.0].source_view()))
                &&& r@[a].1@.len() > 0
            },
        forall|id: u128|
            sources@.contains_key(id) && guids@.filter(has_function(sources@[id].source_view())).len() > 0
                ==> exists|a: int| 0 <= a < r@.len() && r@[a].0.0 == id,
{
    let keys = map_keys(sources);
    let mut r: Vec<(SourceId, Vec<FunctionGUID>)> = Vec::new();
    let mut i: usize = 0;
    while i < keys.len()
        invariant
            i <= keys@.len(),
            keys@.no_duplicates(),
            keys@.to_set() == sources@.dom(),
            forall|a: int| 0 <= a < r@.len() ==> exists|k: int| 0 <= k < i && keys@[k] == (#[trigger] r@[a]).0.0,
            forall|a: int, b: int| 0 <= a < r@.len() && 0 <= b < r@.len() && a != b ==> r@[a].0 != r@[b].0,
            forall|a: int|
                0 <= a < r@.len() ==> {
                    &&& sources@.contains_key((#[trigger] r@[a]).0.0)
                    &&& r@[a].1@ == guids@.filter(has_function(sources@[r@[a].0.0].source_view()))
                    &&& r@[a].1@.len() > 0
                },
            forall|k: int|
                0 <= k < i && guids@.filter(has_function(sources@[keys@[k]].source_view())).len() > 0
                    ==> exists|a: int| 0 <= a < r@.len() && r@[a].0.0 == keys@[k],
        decreases keys@.len() - i,
    {
        let id = keys[i];
        proof {
            assert(keys@.to_set().contains(id));
        }
        let ghost before = r@;
        if let Some(source) = sources.get(&id) {
            let present = function_guids_present(source, guids);
            if present.len() != 0 {
                r.push((SourceId(id), present));
                proof {
                    assert forall|a: int| 0 <= a < before.len() implies before[a].0 != SourceId(id) by {
                        let k = choose|k: int| 0 <= k < i && keys@[k] == before[a].0.0;
                    }
                }
            }
        }
        proof {
            assert forall|a: int| 0 <= a < r@.len() implies exists|k: int|
                0 <= k < i + 1 && keys@[k] == (#[trigger] r@[a]).0.0 by {
                if a < before.len() {
                    assert(r@[a] == before[a]);
                    let k = choose|k: int| 0 <= k < i && keys@[k] == before[a].0.0;
                } else {
                    assert(keys@[i as int] == r@[a].0.0);
                }
            }
            assert forall|k: int|
                0 <= k < i + 1 && guids@.filter(has_function(sources@[keys@[k]].source_view())).len() > 0
                    implies exists|a: int| 0 <= a < r@.len() && r@[a].0.0 == keys@[k] by {
                if k < i {
                    let a = choose|a: int| 0 <= a < before.len() && before[a].0.0 == keys@[k];
                    assert(r@[a] == before[a]);
                } else {
                    assert(r@[r@.len() - 1].0.0 == keys@[k]);
                }
            }
        }
        i = i + 1;
    }
    proof {
        assert forall|id: u128|
            sources@.contains_key(id) && guids@.filter(has_function(sources@[id].source_view())).len() > 0
                implies exists|a: int| 0 <= a < r@.len() && r@[a].0.0 == id by {
            assert(keys@.to_set().contains(id));
            let k = choose|k: int| 0 <= k < keys@.len() && keys@[k] == id;
        }
    }
    r
}


/// A source that holds nothing.
pub open spec fn empty_source_view() -> MemorySourceView {
    MemorySourceView {
        functions: Map::empty(),
        types: Map::empty(),
        named_types: Seq::empty(),
    }
}

/// The source with the id, or an empty one if there is none.
pub open spec fn source_or_empty(sources: Map<u128, MemorySourceView>, id: u128) -> MemorySourceView {
    if sources.dom().contains(id) {
        sources[id]
    } else {
        empty_source_view()
    }
}

/// The source with `function` appended to the functions with its GUID `guid`.
pub open spec fn source_with_function(v: MemorySourceView, guid: u128, function: FunctionView) -> MemorySourceView {
    MemorySourceView {
        functions: v.functions.insert(guid, view_functions_with_guid(v, guid).push(function)),
        types: v.types,
        named_types: v.named_types,
    }
}

/// The source with `ty` held as the type with the GUID `guid`.
pub open spec fn source_with_type(v: MemorySourceView, guid: u128, ty: TypeView) -> MemorySourceView {
    MemorySourceView { functions: v.functions, types: v.types.insert(guid, ty), named_types: v.named_types }
}

/// A container whose sources are held in memory.
#[derive(Debug, Clone, PartialEq, Eq)]
pub struct MemoryContainer {
    sources: HashMap<u128, MemorySource>,
}

impl View for MemoryContainer {
    type V = Map<u128, MemorySourceView>;

    closed spec fn view(&self) -> Map<u128, MemorySourceView> {
        self.sources@.map_values(|s: MemorySource| s.spec_view())
    }
}

impl MemoryContainer {
    /// An empty container.
    pub fn new() -> (r: Self)
        ensures
            r@ == Map::<u128, MemorySourceView>::empty(),
    {
        let r = MemoryContainer { sources: HashMap::new() };
        proof {
            assert(r@ =~= Map::<u128, MemorySourceView>::empty());
        }
        r
    }

    /// The container with `source` as the source `id`, in place of any source it had there.
    pub fn with_source(self, id: SourceId, source: MemorySource) -> (r: Self)
        ensures
            r@ == self@.insert(id.0, source.spec_view()),
    {
        let mut this = self;
        let ghost view = source.spec_view();
        let ghost before = this@;
        this.sources.insert(id.0, source);
        proof {
            assert(this@ =~= before.insert(id.0, view));
        }
        this
    }

    /// The container with `func` appended to the functions with the GUID `guid` in the source `id`,
    /// which is created empty if the container has no such source.
    pub fn with_source_function(self, id: SourceId, guid: FunctionGUID, func: Function) -> (r:
        Self)
        ensures
            r@ == self@.insert(
                id.0,
                source_with_function(source_or_empty(self@, id.0), guid.guid, func@),
            ),
    {
        let mut this = self;
        let ghost before = this@;
        let ghost fv = func@;
        let mut source = match this.sources.remove(&id.0) {
            Some(source) => source,
            None => MemorySource::new(),
        };
        let ghost old_source = source.spec_view();
        proof {
            assert(old_source =~= source_or_empty(before, id.0));
        }
        let mut functions = match source.functions.remove(&guid.guid) {
            Some(functions) => functions,
            None => Vec::new(),
        };
        proof {
            assert(function_views(functions@) =~= view_functions_with_guid(old_source, guid.guid));
        }
        let ghost old_functions = functions@;
        functions.push(func);
        proof {
            assert(function_views(functions@) =~= function_views(old_functions).push(fv));
        }
        source.functions.insert(guid.guid, functions);
        proof {
            assert(source.spec_view() =~= source_with_function(old_source, guid.guid, fv));
        }
        let ghost new_source = source.spec_view();
        this.sources.insert(id.0, source);
        proof {
            assert(this@ =~= before.insert(id.0, new_source));
        }
        this
    }

    /// The container with `ty` as the type with the GUID `guid` in the source `id`, which is
    /// created empty if the container has no such source.
    pub fn with_source_type(self, id: SourceId, guid: TypeGUID, ty: Type) -> (r: Self)
        ensures
            r@ == self@.insert(id.0, source_with_type(source_or_empty(self@, id.0), guid.guid, ty@)),
    {
        let mut this = self;
        let ghost before = this@;
        let ghost tv = ty@;
        let mut source = match this.sources.remove(&id.0) {
            Some(source) => source,
            None => MemorySource::new(),
        };
        let ghost old_source = source.spec_view();
        proof {
            assert(old_source =~= source_or_empty(before, id.0));
        }
        source.types.insert(guid.guid, ty);
        proof {
            assert(source.spec_view() =~= source_with_type(old_source, guid.guid, tv));
        }
        let ghost new_source = source.spec_view();
        this.sources.insert(id.0, source);
        proof {
            assert(this@ =~= before.insert(id.0, new_source));
        }
        this
    }

    /// The name the container is shown by.
    pub fn to_string(&self) -> (r: String)
        ensures
            r@ == "MemoryContainer"@,
    {
        "MemoryContainer".to_owned()
    }
}

impl Default for MemoryContainer {
    fn default() -> (r: Self)
        ensures
            r@ == Map::<u128, MemorySourceView>::empty(),
    {
        MemoryContainer::new()
    }
}

impl Container for MemoryContainer {
    open spec fn accepts_source(&self, source: SourceId) -> bool {
        true
    }

    open spec fn spec_sources(&self) -> Set<SourceId> {
        Set::new(|s: SourceId| self@.dom().contains(s.0))
    }

    open spec fn spec_type_with_guid(&self, source: SourceId, guid: TypeGUID) -> Option<TypeView> {
        view_type_with_guid(source_or_empty(self@, source.0), guid.guid)
    }

    open spec fn spec_type_guids_with_name(&self, source: SourceId, name: Seq<char>) -> Seq<TypeGUID> {
        view_type_guids_with_name(source_or_empty(self@, source.0).named_types, name)
    }

    open spec fn spec_functions_with_guid(&self, source: SourceId, guid: FunctionGUID) -> Seq<
        FunctionView,
    > {
        view_functions_with_guid(source_or_empty(self@, source.0), guid.guid)
    }

    fn sources_with_type_guid(&self, guid: &TypeGUID) -> (r: Vec<SourceId>) {
        let r = sources_with_type_guid_in(&self.sources, guid);
        proof {
            assert(r@.to_set() =~= self.spec_sources().filter(
                |s: SourceId| self.spec_type_with_guid(s, *guid) is Some,
            ));
            assert forall|i: int| 0 <= i < r@.len() implies self.accepts_source(#[trigger] r@[i]) by {
                assert(r@.to_set().contains(r@[i]));
            }
        }
        r
    }

    fn sources_with_type_guids(&self, guids: &[TypeGUID]) -> (r: Vec<(SourceId, Vec<TypeGUID>)>) {
        let r = sources_with_type_guids_in(&self.sources, guids);
        proof {
            assert forall|s: SourceId| #[trigger] self.spec_sources().contains(s) implies (|g: TypeGUID|
                self.spec_type_with_guid(s, g) is Some) =~= has_type(self.sources@[s.0].source_view()) by {}
            assert forall|a: int| 0 <= a < r@.len() implies {
                &&& self.spec_sources().contains(#[trigger] r@[a].0)
                &&& self.accepts_source(r@[a].0)
                &&& r@[a].1@ == guids@.filter(
                    |g: TypeGUID| self.spec_type_with_guid(r@[a].0, g) is Some,
                )
                &&& r@[a].1@.len() > 0
            } by {
                assert(self.spec_sources().contains(r@[a].0));
            }
        }
        r
    }

    fn type_guids_with_name(&self, source: &SourceId, name: &str) -> (r: Vec<TypeGUID>) {
        match self.sources.get(&source.0) {
            Some(s) => s.type_guids_with_name(name),
            None => Vec::new(),
        }
    }

    fn type_with_guid(&self, source: &SourceId, guid: &TypeGUID) -> (r: Option<Type>) {
        match self.sources.get(&source.0) {
            Some(s) => s.type_with_guid(guid),
            None => None,
        }
    }

    fn sources_with_function_guid(&self, guid: &FunctionGUID) -> (r: Vec<SourceId>) {
        let r = sources_with_function_guid_in(&self.sources, guid);
        proof {
            assert(r@.to_set() =~= self.spec_sources().filter(
                |s: SourceId| self.spec_functions_with_guid(s, *guid).len() > 0,
            ));
            assert forall|i: int| 0 <= i < r@.len() implies self.accepts_source(#[trigger] r@[i]) by {
                assert(r@.to_set().contains(r@[i]));
            }
        }
        r
    }

    fn sources_with_function_guids(&self, guids: &[FunctionGUID]) -> (r: Vec<
        (SourceId, Vec<FunctionGUID>),
    >) {
        let r = sources_with_function_guids_in(&self.sources, guids);
        proof {
            assert forall|s: SourceId| #[trigger] self.spec_sources().contains(s) implies (|g: FunctionGUID|
                self.spec_functions_with_guid(s, g).len() > 0) =~= has_function(self.sources@[s.0].source_view()) by {}
            assert forall|a: int| 0 <= a < r@.len() implies {
                &&& self.spec_sources().contains(#[trigger] r@[a].0)
                &&& self.accepts_source(r@[a].0)
                &&& r@[a].1@ == guids@.filter(
                    |g: FunctionGUID| self.spec_functions_with_guid(r@[a].0, g).len() > 0,
                )
                &&& r@[a].1@.len() > 0
            } by {
                assert(self.spec_sources().contains(r@[a].0));
            }
        }
        r
    }

    fn functions_with_guid(&self, source: &SourceId, guid: &FunctionGUID) -> (r: Vec<Function>) {
        match self.sources.get(&source.0) {
            Some(s) => s.functions_with_guid(guid),
            None => {
                proof {
                    assert(function_views(Seq::<Function>::empty()) =~= Seq::<FunctionView>::empty());
                }
                Vec::new()
            },
        }
    }
}


/// After [`MemoryContainer::with_source_type`], the source holds the type under its GUID, the
/// container has the source, and every other lookup (types under other GUIDs or in other sources,
/// type names, functions) answers as before.
pub proof fn lemma_with_source_type_lookups(
    before: &MemoryContainer,
    after: &MemoryContainer,
    id: SourceId,
    guid: TypeGUID,
    ty: Type,
)
    requires
        after@ == before@.insert(
            id.0,
            source_with_type(source_or_empty(before@, id.0), guid.guid, ty@),
        ),
    ensures
        after.spec_type_with_guid(id, guid) == Some(ty@),
        after.spec_sources() == before.spec_sources().insert(id),
        forall|s: SourceId, g: TypeGUID|
            (s != id || g != guid) ==> #[trigger] after.spec_type_with_guid(s, g)
                == before.spec_type_with_guid(s, g),
        forall|s: SourceId, n: Seq<char>|
            #[trigger] after.spec_type_guids_with_name(s, n) == before.spec_type_guids_with_name(
                s,
                n,
            ),
        forall|s: SourceId, g: FunctionGUID|
            #[trigger] after.spec_functions_with_guid(s, g) == before.spec_functions_with_guid(
                s,
                g,
            ),
{
    assert(after.spec_sources() =~= before.spec_sources().insert(id));
}

/// After [`MemoryContainer::with_source_function`], the functions with the GUID in the source
/// are those it had with the function appended, the container has the source, and every other
/// lookup (functions under other GUIDs or in other sources, types, type names) answers as before.
pub proof fn lemma_with_source_function_lookups(
    before: &MemoryContainer,
    after: &MemoryContainer,
    id: SourceId,
    guid: FunctionGUID,
    func: Function,
)
    requires
        after@ == before@.insert(
            id.0,
            source_with_function(source_or_empty(before@, id.0), guid.guid, func@),
        ),
    ensures
        after.spec_functions_with_guid(id, guid) == before.spec_functions_with_guid(id, guid).push(
            func@,
        ),
        after.spec_sources() == before.spec_sources().insert(id),
        forall|s: SourceId, g: FunctionGUID|
            (s != id || g != guid) ==> #[trigger] after.spec_functions_with_guid(s, g)
                == before.spec_functions_with_guid(s, g),
        forall|s: SourceId, g: TypeGUID|
            #[trigger] after.spec_type_with_guid(s, g) == before.spec_type_with_guid(s, g),
        forall|s: SourceId, n: Seq<char>|
            #[trigger] after.spec_type_guids_with_name(s, n) == before.spec_type_guids_with_name(
                s,
                n,
            ),
{
    assert(after.spec_sources() =~= before.spec_sources().insert(id));
}


/// The functions that the map holds for the GUID, none if it holds none.
pub open spec fn grouped_functions(m: Map<u128, Vec<Function>>, guid: u128) -> Seq<FunctionView> {
    if m.dom().contains(guid) {
        function_views(m[guid]@)
    } else {
        Seq::empty()
    }
}

/// The type that the map holds for the GUID, if any.
pub open spec fn held_type(m: Map<u128, Type>, guid: u128) -> Option<TypeView> {
    if m.dom().contains(guid) {
        Some(m[guid]@)
    } else {
        None
    }
}

/// The functions of the sequence with the GUID, in their order.
pub open spec fn functions_with_guid_in(fs: Seq<FunctionView>, guid: u128) -> Seq<FunctionView> {
    fs.filter(|f: FunctionView| f.guid.guid == guid)
}

/// The type of the last entry with the GUID, if any.
pub open spec fn last_type_with_guid(ts: Seq<ComputedType>, guid: u128) -> Option<TypeView>
    decreases ts.len(),
{
    if ts.len() == 0 {
        None
    } else if ts.last().guid.guid == guid {
        Some(ts.last().ty@)
    } else {
        last_type_with_guid(ts.drop_last(), guid)
    }
}

/// The entry is a type with the name.
pub open spec fn named(name: Seq<char>) -> spec_fn(ComputedType) -> bool {
    |t: ComputedType| t.ty.name is Some && t.ty.name->0@ == name
}

/// The GUIDs of the types with the name, in their order.
pub open spec fn type_guids_named_in(ts: Seq<ComputedType>, name: Seq<char>) -> Seq<TypeGUID> {
    ts.filter(named(name)).map_values(|t: ComputedType| t.guid)
}

/// Each name has at most one entry.
pub open spec fn names_distinct(named: Seq<(Seq<char>, Seq<TypeGUID>)>) -> bool {
    forall|a: int, b: int|
        0 <= a < named.len() && 0 <= b < named.len() && a != b ==> named[a].0 != named[b].0
}

/// With names that occur once each, the lookup finds the entry with the name.
proof fn lemma_lookup_distinct(entries: Seq<(Seq<char>, Seq<TypeGUID>)>, name: Seq<char>)
    requires
        forall|i: int, j: int|
            0 <= i < entries.len() && 0 <= j < entries.len() && i != j ==> entries[i].0 != entries[j].0,
    ensures
        forall|i: int|
            0 <= i < entries.len() && entries[i].0 == name ==> view_type_guids_with_name(entries, name)
                == entries[i].1,
        (forall|i: int| 0 <= i < entries.len() ==> entries[i].0 != name) ==> view_type_guids_with_name(
            entries,
            name,
        ) == Seq::<TypeGUID>::empty(),
    decreases entries.len(),
{
    if entries.len() > 0 {
        let rest = entries.drop_first();
        assert forall|i: int, j: int|
            0 <= i < rest.len() && 0 <= j < rest.len() && i != j implies rest[i].0 != rest[j].0 by {
            assert(rest[i] == entries[i + 1] && rest[j] == entries[j + 1]);
        }
        lemma_lookup_distinct(rest, name);
        assert forall|i: int|
            0 <= i < entries.len() && entries[i].0 == name implies view_type_guids_with_name(entries, name)
                == entries[i].1 by {
            if i > 0 {
                assert(rest[i - 1] == entries[i]);
            }
        }
        if forall|i: int| 0 <= i < entries.len() ==> entries[i].0 != name {
            assert forall|i: int| 0 <= i < rest.len() implies rest[i].0 != name by {
                assert(rest[i] == entries[i + 1]);
            }
        }
    }
}

impl MemorySource {
    /// The source holding the functions and types of a signature file: the functions grouped by
    /// GUID, in their order; each GUID's type, the last one given where a GUID comes more than
    /// once; and the GUIDs of the named types grouped by name, in their order.
    pub fn from_data(data: Data) -> (r: Self)
        ensures
            forall|g: u128|
                view_functions_with_guid(r.spec_view(), g) == functions_with_guid_in(
                    function_views(data.functions@),
                    g,
                ),
            forall|g: u128|
                r.spec_view().functions.dom().contains(g) <==> exists|i: int|
                    0 <= i < data.functions@.len() && data.functions@[i].guid.guid == g,
            forall|g: u128|
                view_type_with_guid(r.spec_view(), g) == last_type_with_guid(data.types@, g),
            forall|name: Seq<char>|
                view_type_guids_with_name(r.spec_view().named_types, name) == type_guids_named_in(
                    data.types@,
                    name,
                ),
            names_distinct(r.spec_view().named_types),
            forall|name: Seq<char>|
                (exists|a: int|
                    0 <= a < r.spec_view().named_types.len() && r.spec_view().named_types[a].0
                        == name) <==> #[trigger] type_guids_named_in(data.types@, name).len() > 0,
            forall|a: int|
                0 <= a < r.spec_view().named_types.len() ==> #[trigger] r.spec_view().named_types[a].1
                    == type_guids_named_in(data.types@, r.spec_view().named_types[a].0),
    {
        let ghost fs = function_views(data.functions@);
        let mut functions: HashMap<u128, Vec<Function>> = HashMap::new();
        let mut i: usize = 0;
        while i < data.functions.len()
            invariant
                i <= data.functions@.len(),
                fs == function_views(data.functions@),
                forall|g: u128|
                    grouped_functions(functions@, g) == functions_with_guid_in(fs.take(i as int), g),
                forall|g: u128|
                    functions@.dom().contains(g) <==> exists|k: int|
                        0 <= k < i && data.functions@[k].guid.guid == g,
            decreases data.functions@.len() - i,
        {
            let f = data.functions[i].clone();
            let g = f.guid.guid;
            let ghost fv = f@;
            let ghost before = functions@;
            let mut list = match functions.remove(&g) {
                Some(list) => list,
                None => Vec::new(),
            };
            let ghost old_list = list@;
            list.push(f);
            proof {
                assert(function_views(list@) =~= function_views(old_list).push(fv));
            }
            functions.insert(g, list);
            proof {
                reveal_with_fuel(Seq::<_>::filter, 1);
                assert(fs.take(i + 1).drop_last() =~= fs.take(i as int));
                assert(fs.take(i + 1).last() == fv);
                assert forall|h: u128|
                    grouped_functions(functions@, h) == functions_with_guid_in(fs.take(i + 1), h) by {
                    if h != g {
                        assert(grouped_functions(before, h) == functions_with_guid_in(fs.take(i as int), h));
                    } else {
                        assert(grouped_functions(before, h) == functions_with_guid_in(fs.take(i as int), h));
                        assert(function_views(old_list) =~= grouped_functions(before, h));
                    }
                }
                assert forall|h: u128|
                    functions@.dom().contains(h) <==> exists|k: int|
                        0 <= k < i + 1 && data.functions@[k].guid.guid == h by {
                    if h == g {
                        assert(data.functions@[i as int].guid.guid == g);
                    } else if exists|k: int| 0 <= k < i + 1 && data.functions@[k].guid.guid == h {
                        let k = choose|k: int| 0 <= k < i + 1 && data.functions@[k].guid.guid == h;
                        assert(k < i);
                    }
                }
            }
            i = i + 1;
        }
        proof {
            assert(fs.take(data.functions@.len() as int) =~= fs);
        }

        let mut types: HashMap<u128, Type> = HashMap::new();
        let mut named_types: Vec<(String, Vec<TypeGUID>)> = Vec::new();
        let ghost ts = data.types@;
        let mut j: usize = 0;
        while j < data.types.len()
            invariant
                j <= ts.len(),
                ts == data.types@,
                forall|g: u128|
                    held_type(types@, g) == last_type_with_guid(ts.take(j as int), g),
                forall|a: int, b: int|
                    0 <= a < named_types@.len() && 0 <= b < named_types@.len() && a != b
                        ==> named_types@[a].0@ != named_types@[b].0@,
                forall|name: Seq<char>|
                    (exists|a: int| 0 <= a < named_types@.len() && named_types@[a].0@ == name) <==> #[trigger] type_guids_named_in(ts.take(j as int), name).len() > 0,
                forall|a: int|
                    0 <= a < named_types@.len() ==> named_types@[a].1@ == type_guids_named_in(
                        ts.take(j as int),
                        named_types@[a].0@,
                    ),
            decreases ts.len() - j,
        {
            let entry = &data.types[j];
            let g = entry.guid;
            let ty = entry.ty.clone();
            let ghost before_types = types@;
            types.insert(g.guid, ty);
            proof {
                assert(ts.take(j + 1).drop_last() =~= ts.take(j as int));
                assert forall|h: u128|
                    held_type(types@, h) == last_type_with_guid(ts.take(j + 1), h) by {
                    assert(held_type(before_types, h) == last_type_with_guid(ts.take(j as int), h));
                }
            }
            let ghost before_named = named_types@;
            proof {
                reveal_with_fuel(Seq::<_>::filter, 1);
            }
            match &entry.ty.name {
                Some(name) => {
                    let mut found: Option<usize> = None;
                    let mut k: usize = 0;
                    while k < named_types.len()
                        invariant
                            k <= named_types@.len(),
                            found is None ==> forall|a: int| 0 <= a < k ==> named_types@[a].0@ != name@,
                            found matches Some(x) ==> x < named_types@.len() && named_types@[x as int].0@ == name@,
                        decreases named_types@.len() - k,
                    {
                        if found.is_none() && named_types[k].0 == *name {
                            found = Some(k);
                        }
                        k = k + 1;
                    }
                    match found {
                        Some(x) => {
                            let mut e = named_types.remove(x);
                            e.1.push(g);
                            named_types.insert(x, e);
                        },
                        None => {
                            named_types.push((name.clone(), vec![g]));
                        },
                    }
                    proof {
                        let n = name@;
                        assert(named(n)(ts.take(j + 1).last()));
                        assert forall|m: Seq<char>| m != n implies type_guids_named_in(ts.take(j + 1), m)
                            == type_guids_named_in(ts.take(j as int), m) by {
                            assert(!named(m)(ts.take(j + 1).last()));
                        }
                        assert(type_guids_named_in(ts.take(j + 1), n) =~= type_guids_named_in(ts.take(j as int), n).push(g));
                        assert(type_guids_named_in(ts.take(j + 1), n).len() > 0);
                        match found {
                            Some(x) => {
                                assert(named_types@.len() == before_named.len());
                                assert forall|a: int| 0 <= a < named_types@.len() implies named_types@[a].0@ == before_named[a].0@
                                    && named_types@[a].1@ == if a == x {
                                    before_named[a].1@.push(g)
                                } else {
                                    before_named[a].1@
                                } by {}
                            },
                            None => {
                                assert(named_types@.len() == before_named.len() + 1);
                                assert(named_types@.last().0@ == n);
                                assert(named_types@.last().1@ =~= seq![g]);
                                assert forall|a: int| 0 <= a < before_named.len() implies named_types@[a] == before_named[a] by {}
                            },
                        }
                        assert forall|m: Seq<char>|
                            (exists|a: int| 0 <= a < named_types@.len() && named_types@[a].0@ == m) <==> #[trigger] type_guids_named_in(ts.take(j + 1), m).len() > 0 by {
                            if m == n {
                                match found {
                                    Some(x) => { assert(named_types@[x as int].0@ == n); },
                                    None => { assert(named_types@[named_types@.len() - 1].0@ == n); },
                                }
                            } else {
                                assert(type_guids_named_in(ts.take(j + 1), m) == type_guids_named_in(ts.take(j as int), m));
                                assert((exists|a: int| 0 <= a < before_named.len() && before_named[a].0@ == m) <==> type_guids_named_in(ts.take(j as int), m).len() > 0);
                                if exists|a: int| 0 <= a < named_types@.len() && named_types@[a].0@ == m {
                                    let a = choose|a: int| 0 <= a < named_types@.len() && named_types@[a].0@ == m;
                                    assert(before_named[a].0@ == m);
                                }
                                if exists|a: int| 0 <= a < before_named.len() && before_named[a].0@ == m {
                                    let a = choose|a: int| 0 <= a < before_named.len() && before_named[a].0@ == m;
                                    assert(named_types@[a].0@ == m);
                                }
                            }
                        }
                    }
                },
                None => {
                    proof {
                        assert forall|m: Seq<char>| type_guids_named_in(ts.take(j + 1), m)
                            == type_guids_named_in(ts.take(j as int), m) by {
                            assert(!named(m)(ts.take(j + 1).last()));
                        }
                        assert forall|m: Seq<char>|
                            (exists|a: int| 0 <= a < named_types@.len() && named_types@[a].0@ == m) <==> #[trigger] type_guids_named_in(ts.take(j + 1), m).len() > 0 by {
                            assert(type_guids_named_in(ts.take(j + 1), m) == type_guids_named_in(ts.take(j as int), m));
                        }
                    }
                },
            }
            j = j + 1;
        }
        let r = MemorySource { functions, types, named_types };
        proof {
            assert(ts.take(ts.len() as int) =~= ts);
            assert forall|g: u128|
                view_type_with_guid(r.spec_view(), g) == last_type_with_guid(data.types@, g) by {
                assert(held_type(r.types@, g) == last_type_with_guid(ts.take(j as int), g));
            }
            assert forall|name: Seq<char>|
                view_type_guids_with_name(r.spec_view().named_types, name) == type_guids_named_in(
                    data.types@,
                    name,
                ) by {
                let entries = r.spec_view().named_types;
                assert forall|a: int, b: int|
                    0 <= a < entries.len() && 0 <= b < entries.len() && a != b implies entries[a].0 != entries[b].0 by {}
                lemma_lookup_distinct(entries, name);
                if exists|a: int| 0 <= a < entries.len() && entries[a].0 == name {
                    let a = choose|a: int| 0 <= a < entries.len() && entries[a].0 == name;
                } else {
                    assert forall|a: int| 0 <= a < named_types@.len() implies named_types@[a].0@ != name by {
                        assert(entries[a].0 == r.named_types@[a].0@);
                    }
                    assert(type_guids_named_in(ts.take(j as int), name).len() == 0);
                    assert(type_guids_named_in(data.types@, name) =~= Seq::<TypeGUID>::empty());
                }
            }
            let entries = r.spec_view().named_types;
            assert forall|a: int, b: int|
                0 <= a < entries.len() && 0 <= b < entries.len() && a != b implies entries[a].0
                != entries[b].0 by {}
            assert forall|name: Seq<char>|
                (exists|a: int| 0 <= a < entries.len() && entries[a].0 == name)
                    <==> #[trigger] type_guids_named_in(data.types@, name).len() > 0 by {
                assert(type_guids_named_in(ts.take(j as int), name).len() > 0 <==> (exists|a: int|
                    0 <= a < named_types@.len() && named_types@[a].0@ == name));
                if exists|a: int| 0 <= a < entries.len() && entries[a].0 == name {
                    let a = choose|a: int| 0 <= a < entries.len() && entries[a].0 == name;
                    assert(named_types@[a].0@ == name);
                }
                if exists|a: int| 0 <= a < named_types@.len() && named_types@[a].0@ == name {
                    let a = choose|a: int| 0 <= a < named_types@.len() && named_types@[a].0@ == name;
                    assert(entries[a].0 == name);
                }
            }
            assert forall|a: int| 0 <= a < entries.len() implies #[trigger] entries[a].1
                == type_guids_named_in(data.types@, entries[a].0) by {
                assert(named_types@[a].1@ == type_guids_named_in(ts.take(j as int), named_types@[a].0@));
            }
            assert forall|g: u128|
                view_functions_with_guid(r.spec_view(), g) == functions_with_guid_in(
                    function_views(data.functions@),
                    g,
                ) by {
                assert(grouped_functions(r.functions@, g) == functions_with_guid_in(
                    function_views(data.functions@),
                    g,
                ));
            }
        }
        r
    }
}

} // verus!
