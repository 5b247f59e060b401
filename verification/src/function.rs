//! Building the WARP function of a function of the binary under analysis.
use crate::analysis::{adjacent_offsets_fit, AnalysisFunction, FunctionSurroundings};
use crate::cache::{spec_adjacency_constraints, spec_call_site_constraints, adjacent_gives, GUIDCache};
use crate::signature::{
    constraint_views, Function, FunctionConstraint, FunctionConstraintView, FunctionConstraints,
    FunctionGUID, Type,
};
use vstd::prelude::*;

verus! {

/// The WARP function of `function`, of type `ty`: its GUID as [`GUIDCache::function_guid`] gives it
/// (computed by `compute_guid` if it is not cached), its symbol, and its constraints: those of
/// its call sites and of all the functions next to it, computed with the cache once the GUID is
/// in it; no caller sites.
pub fn build_function<F: FnOnce() -> FunctionGUID>(
    guid_cache: &mut GUIDCache,
    function: &AnalysisFunction,
    surroundings: &FunctionSurroundings,
    ty: Type,
    compute_guid: F,
) -> (r: Function)
    requires
        compute_guid.requires(()),
        adjacent_offsets_fit(surroundings.adjacent@, function.start),
    ensures
        old(guid_cache).guids().dom().contains(function.id.0) ==> r.guid == old(
            guid_cache,
        ).guids()[function.id.0] && final(guid_cache).guids() == old(guid_cache).guids(),
        !old(guid_cache).guids().dom().contains(function.id.0) ==> compute_guid.ensures((), r.guid)
            && final(guid_cache).guids() == old(guid_cache).guids().insert(function.id.0, r.guid),
        r.symbol@ == function.symbol@,
        r.ty@ == ty@,
        constraint_views(r.constraints.adjacent@).no_duplicates(),
        constraint_views(r.constraints.adjacent@).to_set() == spec_adjacency_constraints(
            final(guid_cache).guids(),
            *function,
            surroundings.adjacent@,
            |f: AnalysisFunction| true,
        ),
        constraint_views(r.constraints.call_sites@).no_duplicates(),
        constraint_views(r.constraints.call_sites@).to_set() == spec_call_site_constraints(
            final(guid_cache).guids(),
            *function,
            surroundings.call_sites@,
        ),
        r.constraints.caller_sites@.len() == 0,
{
    let guid = guid_cache.function_guid(function.id, compute_guid);
    let symbol = function.symbol.clone();
    // NOTE: Adding adjacent only works if analysis is complete.
    // NOTE: We do not filter out adjacent functions here.
    let accept_all = |f: &AnalysisFunction| -> (b: bool)
        ensures
            b,
        { true };
    let adjacent = guid_cache.adjacency_constraints(function, &surroundings.adjacent, accept_all);
    let call_sites = guid_cache.call_site_constraints(function, &surroundings.call_sites);
    proof {
        let guids = guid_cache.guids();
        let spec_set = spec_adjacency_constraints(
            guids,
            *function,
            surroundings.adjacent@,
            |f: AnalysisFunction| true,
        );
        assert forall|c: FunctionConstraintView|
            constraint_views(adjacent@).to_set().contains(c) <==> spec_set.contains(c) by {
            if spec_set.contains(c) {
                let (i, j) = choose|i: int, j: int|
                    adjacent_gives(guids, *function, surroundings.adjacent@, i, j, c);
                assert(!accept_all.ensures((&surroundings.adjacent@[i].functions@[j],), false));
            }
        }
        assert(constraint_views(adjacent@).to_set() =~= spec_set);
    }
    Function {
        guid,
        symbol,
        ty,
        constraints: FunctionConstraints { call_sites, adjacent, caller_sites: Vec::new() },
    }
}

} // verus!
