//! Per-view caches of function GUIDs, built functions and matched functions, kept in
//! `dashmap::DashMap`s keyed by the function's id.
use crate::analysis::{
    adjacent_offsets_fit, AdjacentFunctions, AnalysisFunction, CallSite, CallSiteTarget,
    FunctionID,
};
use crate::signature::{
    constraint_views, insert_constraint, Function, FunctionConstraint, FunctionConstraintView,
    FunctionGUID, FunctionView, Symbol,
};
use dashmap::DashMap;
use vstd::prelude::*;

verus! {

#[verifier::external_type_specification]
#[verifier::external_body]
#[verifier::reject_recursive_types(K)]
#[verifier::reject_recursive_types(V)]
#[verifier::reject_recursive_types(S)]
pub struct ExDashMap<K, V, S>(DashMap<K, V, S>);

/// Function GUIDs by function id.
pub type GuidMap = DashMap<u64, FunctionGUID>;

/// What a map of function GUIDs holds, by function id.
pub uninterp spec fn guid_map_contents(m: GuidMap) -> Map<u64, FunctionGUID>;

/// `DashMap::new`: the new map holds nothing.
#[verifier::external_body]
fn guid_map_new() -> (r: GuidMap)
    ensures
        guid_map_contents(r).dom().is_empty(),
{
    DashMap::new()
}

/// `DashMap::get`, copying the value out of the returned guard: the value held for `key`, if any.
#[verifier::external_body]
fn guid_map_get(m: &GuidMap, key: u64) -> (r: Option<FunctionGUID>)
    ensures
        r == (if guid_map_contents(*m).dom().contains(key) {
            Some(guid_map_contents(*m)[key])
        } else {
            None
        }),
{
    m.get(&key).map(|guard| *guard.value())
}

/// `DashMap::insert`: afterwards `key` maps to `value`; the value it held before is returned.
#[verifier::external_body]
fn guid_map_insert(m: &mut GuidMap, key: u64, value: FunctionGUID) -> (r: Option<
    FunctionGUID,
>)
    ensures
        guid_map_contents(*final(m)) == guid_map_contents(*old(m)).insert(key, value),
        r == (if guid_map_contents(*old(m)).dom().contains(key) {
            Some(guid_map_contents(*old(m))[key])
        } else {
            None
        }),
{
    m.insert(key, value)
}

/// The GUID cache's function GUID, if one is held for the function.
pub open spec fn cached_guid(guids: Map<u64, FunctionGUID>, id: FunctionID) -> Option<FunctionGUID> {
    if guids.dom().contains(id.0) {
        Some(guids[id.0])
    } else {
        None
    }
}

/// The constraint on `function` at `offset`: its cached GUID, if any, and its symbol.
pub open spec fn spec_function_constraint(
    guids: Map<u64, FunctionGUID>,
    function: AnalysisFunction,
    offset: i64,
) -> FunctionConstraintView {
    FunctionConstraintView {
        guid: cached_guid(guids, function.id),
        symbol: Some(function.symbol@),
        offset,
    }
}

/// The constraint that a code reference from a call site at `site_address` gives, if any.
pub open spec fn call_site_target_constraint(
    guids: Map<u64, FunctionGUID>,
    function: AnalysisFunction,
    site_address: u64,
    target: CallSiteTarget,
) -> Option<FunctionConstraintView> {
    let offset = site_address.wrapping_sub(function.start) as i64;
    match target {
        CallSiteTarget::Function(f) => if f.id != function.id {
            Some(spec_function_constraint(guids, f, offset))
        } else {
            None
        },
        CallSiteTarget::Symbol(s) => Some(
            FunctionConstraintView { guid: None, symbol: Some(s@), offset },
        ),
        CallSiteTarget::Unresolved => None,
    }
}

/// The code reference `j` of call site `i` gives the constraint `c`.
pub open spec fn call_site_gives(
    guids: Map<u64, FunctionGUID>,
    function: AnalysisFunction,
    call_sites: Seq<CallSite>,
    i: int,
    j: int,
    c: FunctionConstraintView,
) -> bool {
    &&& 0 <= i < call_sites.len()
    &&& 0 <= j < call_sites[i].targets@.len()
    &&& call_site_target_constraint(guids, function, call_sites[i].address, call_sites[i].targets@[j])
        == Some(c)
}

/// The call-site constraints of `function`: one for each code reference from a call site that
/// leads to another function or to a symbol.
pub open spec fn spec_call_site_constraints(
    guids: Map<u64, FunctionGUID>,
    function: AnalysisFunction,
    call_sites: Seq<CallSite>,
) -> Set<FunctionConstraintView> {
    Set::new(
        |c: FunctionConstraintView|
            exists|i: int, j: int| call_site_gives(guids, function, call_sites, i, j, c),
    )
}

/// The offset of a function start next to `function`.
pub open spec fn adjacent_offset(function: AnalysisFunction, start: u64) -> i64 {
    ((start as i64) - (function.start as i64)) as i64
}

/// Function `j` at the adjacent start `i` is another function, and `c` is its constraint.
pub open spec fn adjacent_gives(
    guids: Map<u64, FunctionGUID>,
    function: AnalysisFunction,
    adjacent: Seq<AdjacentFunctions>,
    i: int,
    j: int,
    c: FunctionConstraintView,
) -> bool {
    &&& 0 <= i < adjacent.len()
    &&& 0 <= j < adjacent[i].functions@.len()
    &&& adjacent[i].functions@[j].id != function.id
    &&& c == spec_function_constraint(
        guids,
        adjacent[i].functions@[j],
        adjacent_offset(function, adjacent[i].start),
    )
}

/// The adjacency constraints of `function`: one for each other function next to it that
/// `allowed` accepts.
pub open spec fn spec_adjacency_constraints(
    guids: Map<u64, FunctionGUID>,
    function: AnalysisFunction,
    adjacent: Seq<AdjacentFunctions>,
    allowed: spec_fn(AnalysisFunction) -> bool,
) -> Set<FunctionConstraintView> {
    Set::new(
        |c: FunctionConstraintView|
            exists|i: int, j: int|
                adjacent_gives(guids, function, adjacent, i, j, c) && allowed(
                    adjacent[i].functions@[j],
                ),
    )
}

/// The constraint on a function, at an offset: its GUID where the cache holds one for its id,
/// and its symbol.
pub open spec fn cached_constraint(
    guids: Map<u64, FunctionGUID>,
    f: AnalysisFunction,
    offset: i64,
) -> FunctionConstraintView {
    FunctionConstraintView {
        guid: if guids.dom().contains(f.id.0) {
            Some(guids[f.id.0])
        } else {
            None
        },
        symbol: Some(f.symbol@),
        offset,
    }
}

/// Each other function next to `function` that the filter accepts gives the adjacency constraint
/// that carries its cached GUID (if the cache holds one for it), its symbol, and the offset of its
/// start from the start of `function`; and the adjacency constraints are exactly these.
pub proof fn lemma_adjacency_constraints_carry_cached_guids(
    guids: Map<u64, FunctionGUID>,
    function: AnalysisFunction,
    adjacent: Seq<AdjacentFunctions>,
    allowed: spec_fn(AnalysisFunction) -> bool,
)
    ensures
        forall|i: int, j: int|
            0 <= i < adjacent.len() && 0 <= j < adjacent[i].functions@.len()
                && adjacent[i].functions@[j].id != function.id && allowed(adjacent[i].functions@[j])
                ==> spec_adjacency_constraints(guids, function, adjacent, allowed).contains(
                #[trigger] cached_constraint(
                    guids,
                    adjacent[i].functions@[j],
                    ((adjacent[i].start as i64) - (function.start as i64)) as i64,
                ),
            ),
        forall|c: FunctionConstraintView|
            #[trigger] spec_adjacency_constraints(guids, function, adjacent, allowed).contains(c)
                ==> exists|i: int, j: int|
                0 <= i < adjacent.len() && 0 <= j < adjacent[i].functions@.len()
                    && adjacent[i].functions@[j].id != function.id && allowed(
                    adjacent[i].functions@[j],
                ) && c == cached_constraint(
                    guids,
                    adjacent[i].functions@[j],
                    ((adjacent[i].start as i64) - (function.start as i64)) as i64,
                ),
{
    assert forall|i: int, j: int|
        0 <= i < adjacent.len() && 0 <= j < adjacent[i].functions@.len()
            && adjacent[i].functions@[j].id != function.id && allowed(adjacent[i].functions@[j])
            implies spec_adjacency_constraints(guids, function, adjacent, allowed).contains(
        #[trigger] cached_constraint(
            guids,
            adjacent[i].functions@[j],
            ((adjacent[i].start as i64) - (function.start as i64)) as i64,
        ),
    ) by {
        let c = cached_constraint(
            guids,
            adjacent[i].functions@[j],
            ((adjacent[i].start as i64) - (function.start as i64)) as i64,
        );
        assert(adjacent_gives(guids, function, adjacent, i, j, c));
    }
}

/// Each code reference from a call site of `function` gives the constraint on what it leads to:
/// another function, with its cached GUID (if the cache holds one for it) and its symbol, or a
/// symbol, without a GUID; at the offset of the call site from the start of `function`. A
/// reference to `function` itself, or to nothing, gives none; and the call-site constraints are
/// exactly these.
pub proof fn lemma_call_site_constraints_carry_cached_guids(
    guids: Map<u64, FunctionGUID>,
    function: AnalysisFunction,
    call_sites: Seq<CallSite>,
)
    ensures
        forall|i: int, j: int|
            #![trigger call_sites[i].targets@[j]]
            0 <= i < call_sites.len() && 0 <= j < call_sites[i].targets@.len() ==> {
                let offset = call_sites[i].address.wrapping_sub(function.start) as i64;
                &&& (call_sites[i].targets@[j] is Function && call_sites[i].targets@[j]->Function_0.id
                    != function.id ==> spec_call_site_constraints(guids, function, call_sites).contains(
                    cached_constraint(guids, call_sites[i].targets@[j]->Function_0, offset),
                ))
                &&& (call_sites[i].targets@[j] is Symbol ==> spec_call_site_constraints(
                    guids,
                    function,
                    call_sites,
                ).contains(
                    FunctionConstraintView {
                        guid: None,
                        symbol: Some(call_sites[i].targets@[j]->Symbol_0@),
                        offset,
                    },
                ))
            },
        forall|c: FunctionConstraintView|
            #[trigger] spec_call_site_constraints(guids, function, call_sites).contains(c)
                ==> exists|i: int, j: int|
                #![trigger call_sites[i].targets@[j]]
                0 <= i < call_sites.len() && 0 <= j < call_sites[i].targets@.len() && match call_sites[i].targets@[j] {
                    CallSiteTarget::Function(f) => f.id != function.id && c == cached_constraint(
                        guids,
                        f,
                        call_sites[i].address.wrapping_sub(function.start) as i64,
                    ),
                    CallSiteTarget::Symbol(s) => c == (FunctionConstraintView {
                        guid: None,
                        symbol: Some(s@),
                        offset: call_sites[i].address.wrapping_sub(function.start) as i64,
                    }),
                    CallSiteTarget::Unresolved => false,
                },
{
    assert forall|i: int, j: int|
        #![trigger call_sites[i].targets@[j]]
        0 <= i < call_sites.len() && 0 <= j < call_sites[i].targets@.len() implies {
            let offset = call_sites[i].address.wrapping_sub(function.start) as i64;
            &&& (call_sites[i].targets@[j] is Function && call_sites[i].targets@[j]->Function_0.id
                != function.id ==> spec_call_site_constraints(guids, function, call_sites).contains(
                cached_constraint(guids, call_sites[i].targets@[j]->Function_0, offset),
            ))
            &&& (call_sites[i].targets@[j] is Symbol ==> spec_call_site_constraints(
                guids,
                function,
                call_sites,
            ).contains(
                FunctionConstraintView {
                    guid: None,
                    symbol: Some(call_sites[i].targets@[j]->Symbol_0@),
                    offset,
                },
            ))
        } by {
        let offset = call_sites[i].address.wrapping_sub(function.start) as i64;
        match call_sites[i].targets@[j] {
            CallSiteTarget::Function(f) => {
                if f.id != function.id {
                    assert(call_site_gives(guids, function, call_sites, i, j, cached_constraint(guids, f, offset)));
                }
            },
            CallSiteTarget::Symbol(s) => {
                assert(call_site_gives(
                    guids,
                    function,
                    call_sites,
                    i,
                    j,
                    FunctionConstraintView { guid: None, symbol: Some(s@), offset },
                ));
            },
            CallSiteTarget::Unresolved => {},
        }
    }
}

/// Function GUIDs by function id, for the functions of one view.
#[derive(Debug)]
pub struct GUIDCache {
    pub cache: GuidMap,
}

impl GUIDCache {
    /// The cached GUIDs, by function id.
    pub open spec fn guids(&self) -> Map<u64, FunctionGUID> {
        guid_map_contents(self.cache)
    }

    /// An empty cache.
    pub fn new() -> (r: Self)
        ensures
            r.guids() == Map::<u64, FunctionGUID>::empty(),
    {
        GUIDCache { cache: guid_map_new() }
    }

    /// The cached GUID of the function, if it has one.
    pub fn try_function_guid(&self, function: FunctionID) -> (r: Option<FunctionGUID>)
        ensures
            r == cached_guid(self.guids(), function),
    {
        guid_map_get(&self.cache, function.0)
    }

    /// The GUID of the function: the cached one, or else the one `compute` returns, which is then
    /// cached.
    pub fn function_guid<F: FnOnce() -> FunctionGUID>(&mut self, function: FunctionID, compute: F) -> (r:
        FunctionGUID)
        requires
            compute.requires(()),
        ensures
            old(self).guids().dom().contains(function.0) ==> r == old(self).guids()[function.0]
                && final(self).guids() == old(self).guids(),
            !old(self).guids().dom().contains(function.0) ==> compute.ensures((), r)
                && final(self).guids() == old(self).guids().insert(function.0, r),
    {
        match guid_map_get(&self.cache, function.0) {
            Some(guid) => guid,
            None => {
                let guid = compute();
                guid_map_insert(&mut self.cache, function.0, guid);
                guid
            },
        }
    }

    /// A constraint on `function`, found at `offset`: its cached GUID, if any, and its symbol.
    pub fn function_constraint(&self, function: &AnalysisFunction, offset: i64) -> (r:
        FunctionConstraint)
        ensures
            r@ == spec_function_constraint(self.guids(), *function, offset),
    {
        let guid = self.try_function_guid(function.id);
        FunctionConstraint { guid, symbol: Some(function.symbol.clone()), offset }
    }

    /// A constraint on a symbol that no function is known for, such as that of an external
    /// function, found at `offset`.
    pub fn function_constraint_from_symbol(&self, symbol: &Symbol, offset: i64) -> (r:
        FunctionConstraint)
        ensures
            r@ == (FunctionConstraintView { guid: None, symbol: Some(symbol@), offset }),
    {
        FunctionConstraint { guid: None, symbol: Some(symbol.clone()), offset }
    }

    /// The constraints from the call sites of `function`, without duplicate values.
    pub fn call_site_constraints(&self, function: &AnalysisFunction, call_sites: &[CallSite]) -> (r:
        Vec<FunctionConstraint>)
        ensures
            constraint_views(r@).no_duplicates(),
            constraint_views(r@).to_set() == spec_call_site_constraints(
                self.guids(),
                *function,
                call_sites@,
            ),
    {
        let ghost guids = self.guids();
        let ghost func = *function;
        let ghost sites = call_sites@;
        let mut constraints: Vec<FunctionConstraint> = Vec::new();
        let mut i: usize = 0;
        while i < call_sites.len()
            invariant
                i <= sites.len(),
                sites == call_sites@,
                guids == self.guids(),
                func == *function,
                constraint_views(constraints@).no_duplicates(),
                forall|c: FunctionConstraintView|
                    constraint_views(constraints@).to_set().contains(c) <==> exists|a: int, b: int|
                        a < i && call_site_gives(guids, func, sites, a, b, c),
            decreases sites.len() - i,
        {
            let call_site = &call_sites[i];
            let mut j: usize = 0;
            while j < call_site.targets.len()
                invariant
                    i < sites.len(),
                    j <= sites[i as int].targets@.len(),
                    sites == call_sites@,
                    *call_site == sites[i as int],
                    guids == self.guids(),
                    func == *function,
                    constraint_views(constraints@).no_duplicates(),
                    forall|c: FunctionConstraintView|
                        constraint_views(constraints@).to_set().contains(c) <==> exists|a: int, b: int|
                            (a < i || (a == i && b < j)) && call_site_gives(guids, func, sites, a, b, c),
                decreases sites[i as int].targets@.len() - j,
            {
                let offset: i64 = call_site.address.wrapping_sub(function.start) as i64;
                let ghost before = constraint_views(constraints@).to_set();
                match &call_site.targets[j] {
                    CallSiteTarget::Function(f) => {
                        if f.id != function.id {
                            let c = self.function_constraint(f, offset);
                            let ghost cv = c@;
                            insert_constraint(&mut constraints, c);
                            proof {
                                assert(call_site_gives(guids, func, sites, i as int, j as int, cv));
                            }
                        }
                    },
                    CallSiteTarget::Symbol(s) => {
                        let c = self.function_constraint_from_symbol(s, offset);
                        let ghost cv = c@;
                        insert_constraint(&mut constraints, c);
                        proof {
                            assert(call_site_gives(guids, func, sites, i as int, j as int, cv));
                        }
                    },
                    CallSiteTarget::Unresolved => {},
                }
                proof {
                    assert forall|c: FunctionConstraintView|
                        constraint_views(constraints@).to_set().contains(c) <==> exists|a: int, b: int|
                            (a < i || (a == i && b < j + 1)) && call_site_gives(
                                guids,
                                func,
                                sites,
                                a,
                                b,
                                c,
                            ) by {
                        if call_site_gives(guids, func, sites, i as int, j as int, c) {
                            assert(constraint_views(constraints@).to_set().contains(c));
                        }
                        if exists|a: int, b: int|
                            (a < i || (a == i && b < j + 1)) && call_site_gives(
                                guids,
                                func,
                                sites,
                                a,
                                b,
                                c,
                            ) {
                            let (a, b) = choose|a: int, b: int|
                                (a < i || (a == i && b < j + 1)) && call_site_gives(
                                    guids,
                                    func,
                                    sites,
                                    a,
                                    b,
                                    c,
                                );
                            if !(a == i && b == j) {
                                assert(before.contains(c));
                            }
                        }
                    }
                }
                j = j + 1;
            }
            proof {
                assert forall|c: FunctionConstraintView|
                    constraint_views(constraints@).to_set().contains(c) <==> exists|a: int, b: int|
                        a < i + 1 && call_site_gives(guids, func, sites, a, b, c) by {
                    if exists|a: int, b: int| a < i + 1 && call_site_gives(guids, func, sites, a, b, c) {
                        let (a, b) = choose|a: int, b: int|
                            a < i + 1 && call_site_gives(guids, func, sites, a, b, c);
                        assert((a < i || (a == i && b < j)) && call_site_gives(
                            guids,
                            func,
                            sites,
                            a,
                            b,
                            c,
                        ));
                    }
                }
            }
            i = i + 1;
        }
        proof {
            assert(constraint_views(constraints@).to_set() =~= spec_call_site_constraints(
                guids,
                func,
                sites,
            ));
        }
        constraints
    }

    /// The constraints from the functions next to `function` that `filter` accepts, without
    /// duplicate values. `adjacent` holds the functions at the two function starts before it and
    /// the two after it.
    pub fn adjacency_constraints<F: Fn(&AnalysisFunction) -> bool>(
        &self,
        function: &AnalysisFunction,
        adjacent: &[AdjacentFunctions],
        filter: F,
    ) -> (r: Vec<FunctionConstraint>)
        requires
            adjacent_offsets_fit(adjacent@, function.start),
            forall|i: int, j: int|
                0 <= i < adjacent@.len() && 0 <= j < adjacent@[i].functions@.len()
                    ==> filter.requires((&adjacent@[i].functions@[j],)),
        ensures
            constraint_views(r@).no_duplicates(),
            forall|c: FunctionConstraintView|
                constraint_views(r@).to_set().contains(c) ==> exists|i: int, j: int|
                    adjacent_gives(self.guids(), *function, adjacent@, i, j, c) && filter.ensures(
                        (&adjacent@[i].functions@[j],),
                        true,
                    ),
            forall|i: int, j: int, c: FunctionConstraintView|
                adjacent_gives(self.guids(), *function, adjacent@, i, j, c) && !filter.ensures(
                    (&adjacent@[i].functions@[j],),
                    false,
                ) ==> constraint_views(r@).to_set().contains(c),
    {
        let ghost guids = self.guids();
        let ghost func = *function;
        let ghost adj = adjacent@;
        let mut constraints: Vec<FunctionConstraint> = Vec::new();
        let mut i: usize = 0;
        while i < adjacent.len()
            invariant
                i <= adj.len(),
                adj == adjacent@,
                guids == self.guids(),
                func == *function,
                adjacent_offsets_fit(adj, func.start),
                forall|a: int, b: int|
                    0 <= a < adj.len() && 0 <= b < adj[a].functions@.len() ==> filter.requires(
                        (&adj[a].functions@[b],),
                    ),
                constraint_views(constraints@).no_duplicates(),
                forall|c: FunctionConstraintView|
                    constraint_views(constraints@).to_set().contains(c) ==> exists|a: int, b: int|
                        adjacent_gives(guids, func, adj, a, b, c) && filter.ensures(
                            (&adj[a].functions@[b],),
                            true,
                        ),
                forall|a: int, b: int, c: FunctionConstraintView|
                    a < i && adjacent_gives(guids, func, adj, a, b, c) && !filter.ensures(
                        (&adj[a].functions@[b],),
                        false,
                    ) ==> constraint_views(constraints@).to_set().contains(c),
            decreases adj.len() - i,
        {
            let entry = &adjacent[i];
            let offset: i64 = (entry.start as i64) - (function.start as i64);
            let mut j: usize = 0;
            while j < entry.functions.len()
                invariant
                    i < adj.len(),
                    j <= adj[i as int].functions@.len(),
                    adj == adjacent@,
                    *entry == adj[i as int],
                    offset == adjacent_offset(func, entry.start),
                    guids == self.guids(),
                    func == *function,
                    forall|a: int, b: int|
                        0 <= a < adj.len() && 0 <= b < adj[a].functions@.len() ==> filter.requires(
                            (&adj[a].functions@[b],),
                        ),
                    constraint_views(constraints@).no_duplicates(),
                    forall|c: FunctionConstraintView|
                        constraint_views(constraints@).to_set().contains(c) ==> exists|a: int, b: int|
                            adjacent_gives(guids, func, adj, a, b, c) && filter.ensures(
                                (&adj[a].functions@[b],),
                                true,
                            ),
                    forall|a: int, b: int, c: FunctionConstraintView|
                        (a < i || (a == i && b < j)) && adjacent_gives(guids, func, adj, a, b, c)
                            && !filter.ensures((&adj[a].functions@[b],), false)
                            ==> constraint_views(constraints@).to_set().contains(c),
                decreases adj[i as int].functions@.len() - j,
            {
                let current = &entry.functions[j];
                let ghost before = constraint_views(constraints@).to_set();
                if current.id != function.id {
                    let accepted = filter(current);
                    if accepted {
                        let c = self.function_constraint(current, offset);
                        let ghost cv = c@;
                        insert_constraint(&mut constraints, c);
                        proof {
                            assert(adjacent_gives(guids, func, adj, i as int, j as int, cv));
                        }
                    }
                }
                proof {
                    assert forall|c: FunctionConstraintView|
                        constraint_views(constraints@).to_set().contains(c) implies exists|
                            a: int,
                            b: int,
                        |
                            adjacent_gives(guids, func, adj, a, b, c) && filter.ensures(
                                (&adj[a].functions@[b],),
                                true,
                            ) by {
                        if !before.contains(c) {
                            assert(adjacent_gives(guids, func, adj, i as int, j as int, c));
                        }
                    }
                    assert forall|a: int, b: int, c: FunctionConstraintView|
                        (a < i || (a == i && b < j + 1)) && adjacent_gives(guids, func, adj, a, b, c)
                            && !filter.ensures(
                            (&adj[a].functions@[b],),
                            false,
                        ) implies constraint_views(constraints@).to_set().contains(c) by {
                        if !(a == i && b == j) {
                            assert(before.contains(c));
                        }
                    }
                }
                j = j + 1;
            }
            i = i + 1;
        }
        constraints
    }
}


/// Once [`GUIDCache::function_guid`] has given a function's GUID, [`GUIDCache::try_function_guid`]
/// answers it, and a second call of `function_guid` gives the same GUID, whatever its closure
/// would compute, and leaves the cache as it is.
pub proof fn lemma_function_guid_settles(
    before: &GUIDCache,
    between: &GUIDCache,
    after: &GUIDCache,
    function: FunctionID,
    first: FunctionGUID,
    second: FunctionGUID,
)
    requires
        before.guids().dom().contains(function.0) ==> first == before.guids()[function.0]
            && between.guids() == before.guids(),
        !before.guids().dom().contains(function.0) ==> between.guids() == before.guids().insert(
            function.0,
            first,
        ),
        between.guids().dom().contains(function.0) ==> second == between.guids()[function.0]
            && after.guids() == between.guids(),
        !between.guids().dom().contains(function.0) ==> after.guids() == between.guids().insert(
            function.0,
            second,
        ),
    ensures
        cached_guid(between.guids(), function) == Some(first),
        second == first,
        after.guids() == between.guids(),
{
}


/// The function, if any, as a mathematical value.
pub open spec fn option_function_view(f: Option<Function>) -> Option<FunctionView> {
    match f {
        Some(f) => Some(f@),
        None => None,
    }
}

/// Matched functions (or the absence of a match) by function id.
pub type MatchedMap = DashMap<u64, Option<Function>>;

/// What a map of matched functions holds, by function id.
pub uninterp spec fn matched_map_contents(m: MatchedMap) -> Map<u64, Option<FunctionView>>;

/// `DashMap::new`: the new map holds nothing.
#[verifier::external_body]
fn matched_map_new() -> (r: MatchedMap)
    ensures
        matched_map_contents(r).dom().is_empty(),
{
    DashMap::new()
}

/// `DashMap::get`, cloning the value out of the returned guard: the value held for `key`, if any.
#[verifier::external_body]
fn matched_map_get(m: &MatchedMap, key: u64) -> (r: Option<Option<Function>>)
    ensures
        match r {
            Some(v) => matched_map_contents(*m).dom().contains(key) && option_function_view(v)
                == matched_map_contents(*m)[key],
            None => !matched_map_contents(*m).dom().contains(key),
        },
{
    m.get(&key).map(|guard| crate::signature::clone_option_function(guard.value()))
}

/// `DashMap::insert`: afterwards `key` maps to `value`; the value it held before is returned.
#[verifier::external_body]
fn matched_map_insert(m: &mut MatchedMap, key: u64, value: Option<Function>) -> (r: Option<
    Option<Function>,
>)
    ensures
        matched_map_contents(*final(m)) == matched_map_contents(*old(m)).insert(
            key,
            option_function_view(value),
        ),
        match r {
            Some(v) => matched_map_contents(*old(m)).dom().contains(key) && option_function_view(v)
                == matched_map_contents(*old(m))[key],
            None => !matched_map_contents(*old(m)).dom().contains(key),
        },
{
    m.insert(key, value)
}

/// The matched function of each function of one view, or the absence of a match, by function id.
#[derive(Debug)]
pub struct MatchedFunctionCache {
    pub cache: MatchedMap,
}

impl MatchedFunctionCache {
    /// What the cache holds, by function id.
    pub open spec fn matches(&self) -> Map<u64, Option<FunctionView>> {
        matched_map_contents(self.cache)
    }

    /// An empty cache.
    pub fn new() -> (r: Self)
        ensures
            r.matches().dom().is_empty(),
    {
        MatchedFunctionCache { cache: matched_map_new() }
    }

    /// Records the match of the function, `None` for no match; returns the matched function that
    /// was recorded before, if one was.
    pub fn insert(&mut self, function_id: FunctionID, function: Option<Function>) -> (r: Option<
        Function,
    >)
        ensures
            final(self).matches() == old(self).matches().insert(
                function_id.0,
                option_function_view(function),
            ),
            option_function_view(r) == (if old(self).matches().dom().contains(function_id.0) {
                old(self).matches()[function_id.0]
            } else {
                None
            }),
    {
        match matched_map_insert(&mut self.cache, function_id.0, function) {
            Some(previous) => previous,
            None => None,
        }
    }

    /// The recorded match of the function, if one is recorded; else the one `f` returns, which is
    /// then recorded.
    pub fn get_or_insert<F: FnOnce() -> Option<Function>>(&mut self, function_id: &FunctionID, f: F) -> (r:
        Option<Function>)
        requires
            f.requires(()),
        ensures
            old(self).matches().dom().contains(function_id.0) ==> option_function_view(r)
                == old(self).matches()[function_id.0] && final(self).matches() == old(self).matches(),
            !old(self).matches().dom().contains(function_id.0) ==> f.ensures((), r)
                && final(self).matches() == old(self).matches().insert(
                function_id.0,
                option_function_view(r),
            ),
    {
        match matched_map_get(&self.cache, function_id.0) {
            Some(matched) => matched,
            None => {
                let matched = f();
                let recorded = crate::signature::clone_option_function(&matched);
                matched_map_insert(&mut self.cache, function_id.0, recorded);
                matched
            },
        }
    }

    /// The recorded match of the function: `None` if nothing is recorded, else the recorded match
    /// or absence of one.
    pub fn get(&self, function_id: &FunctionID) -> (r: Option<Option<Function>>)
        ensures
            match r {
                Some(v) => self.matches().dom().contains(function_id.0) && option_function_view(v)
                    == self.matches()[function_id.0],
                None => !self.matches().dom().contains(function_id.0),
            },
    {
        matched_map_get(&self.cache, function_id.0)
    }
}

/// A match recorded by [`MatchedFunctionCache::insert`] is what [`MatchedFunctionCache::get`]
/// then answers for the function; what is recorded for the other functions is unchanged.
pub proof fn lemma_get_after_insert(
    before: &MatchedFunctionCache,
    after: &MatchedFunctionCache,
    function_id: FunctionID,
    function: Option<Function>,
)
    requires
        after.matches() == before.matches().insert(function_id.0, option_function_view(function)),
    ensures
        after.matches().dom().contains(function_id.0),
        after.matches()[function_id.0] == option_function_view(function),
        forall|id: u64|
            id != function_id.0 ==> (#[trigger] after.matches().dom().contains(id)
                == before.matches().dom().contains(id)) && (before.matches().dom().contains(id)
                ==> after.matches()[id] == before.matches()[id]),
{
}

/// Once [`MatchedFunctionCache::get_or_insert`] has answered for a function, a second call
/// answers the same, whatever its closure would return, and leaves the cache as it is.
pub proof fn lemma_get_or_insert_settles(
    before: &MatchedFunctionCache,
    between: &MatchedFunctionCache,
    after: &MatchedFunctionCache,
    function_id: FunctionID,
    first: Option<Function>,
    second: Option<Function>,
)
    requires
        before.matches().dom().contains(function_id.0) ==> option_function_view(first)
            == before.matches()[function_id.0] && between.matches() == before.matches(),
        !before.matches().dom().contains(function_id.0) ==> between.matches()
            == before.matches().insert(function_id.0, option_function_view(first)),
        between.matches().dom().contains(function_id.0) ==> option_function_view(second)
            == between.matches()[function_id.0] && after.matches() == between.matches(),
        !between.matches().dom().contains(function_id.0) ==> after.matches()
            == between.matches().insert(function_id.0, option_function_view(second)),
    ensures
        between.matches().dom().contains(function_id.0),
        option_function_view(second) == option_function_view(first),
        after.matches() == between.matches(),
{
}


/// Built functions by function id.
pub type FunctionMap = DashMap<u64, Function>;

/// What a map of built functions holds, by function id.
pub uninterp spec fn function_map_contents(m: FunctionMap) -> Map<u64, FunctionView>;

/// `DashMap::new`: the new map holds nothing.
#[verifier::external_body]
fn function_map_new() -> (r: FunctionMap)
    ensures
        function_map_contents(r).dom().is_empty(),
{
    DashMap::new()
}

/// `DashMap::get`, cloning the value out of the returned guard: the value held for `key`, if any.
#[verifier::external_body]
fn function_map_get(m: &FunctionMap, key: u64) -> (r: Option<Function>)
    ensures
        match r {
            Some(v) => function_map_contents(*m).dom().contains(key) && v@ == function_map_contents(
                *m,
            )[key],
            None => !function_map_contents(*m).dom().contains(key),
        },
{
    m.get(&key).map(|guard| guard.value().clone())
}

/// `DashMap::insert`: afterwards `key` maps to `value`.
#[verifier::external_body]
fn function_map_insert(m: &mut FunctionMap, key: u64, value: Function)
    ensures
        function_map_contents(*final(m)) == function_map_contents(*old(m)).insert(key, value@),
{
    m.insert(key, value);
}

/// The built WARP function of each function of one view, by function id.
#[derive(Debug)]
pub struct FunctionCache {
    pub cache: FunctionMap,
}

impl FunctionCache {
    /// What the cache holds, by function id.
    pub open spec fn functions(&self) -> Map<u64, FunctionView> {
        function_map_contents(self.cache)
    }

    /// An empty cache.
    pub fn new() -> (r: Self)
        ensures
            r.functions().dom().is_empty(),
    {
        FunctionCache { cache: function_map_new() }
    }

    /// The built function of the function: the cached one, or else the one `build` returns, which
    /// is then cached.
    pub fn function<F: FnOnce() -> Function>(&mut self, function_id: FunctionID, build: F) -> (r:
        Function)
        requires
            build.requires(()),
        ensures
            old(self).functions().dom().contains(function_id.0) ==> r@ == old(
                self,
            ).functions()[function_id.0] && final(self).functions() == old(self).functions(),
            !old(self).functions().dom().contains(function_id.0) ==> build.ensures((), r)
                && final(self).functions() == old(self).functions().insert(function_id.0, r@),
    {
        match function_map_get(&self.cache, function_id.0) {
            Some(function) => function,
            None => {
                let function = build();
                function_map_insert(&mut self.cache, function_id.0, function.clone());
                function
            },
        }
    }
}


/// Once [`FunctionCache::function`] has given a function's WARP function, a second call gives the
/// same function, whatever its closure would build, and leaves the cache as it is.
pub proof fn lemma_function_settles(
    before: &FunctionCache,
    between: &FunctionCache,
    after: &FunctionCache,
    function_id: FunctionID,
    first: Function,
    second: Function,
)
    requires
        before.functions().dom().contains(function_id.0) ==> first@ == before.functions()[function_id.0]
            && between.functions() == before.functions(),
        !before.functions().dom().contains(function_id.0) ==> between.functions()
            == before.functions().insert(function_id.0, first@),
        between.functions().dom().contains(function_id.0) ==> second@ == between.functions()[function_id.0]
            && after.functions() == between.functions(),
        !between.functions().dom().contains(function_id.0) ==> after.functions()
            == between.functions().insert(function_id.0, second@),
    ensures
        between.functions().dom().contains(function_id.0),
        second@ == first@,
        after.functions() == between.functions(),
{
}

} // verus!
