use warp_ninja::analysis::{
    AdjacentFunctions, AnalysisFunction, CallSite, CallSiteTarget, FunctionID,
};
use warp_ninja::cache::{FunctionCache, GUIDCache, MatchedFunctionCache};
use warp_ninja::signature::{
    Function, FunctionConstraint, FunctionConstraints, FunctionGUID, Symbol, SymbolClass, Type,
    TypeClass,
};

fn symbol(name: &str) -> Symbol {
    Symbol {
        name: name.to_string(),
        modifiers: 0,
        class: SymbolClass::Function,
    }
}

fn analysis_function(id: u64, start: u64, len: u64, name: &str) -> AnalysisFunction {
    AnalysisFunction {
        id: FunctionID(id),
        start,
        lowest_address: start,
        highest_address: start + len,
        symbol: symbol(name),
    }
}

fn warp_function(name: &str, guid: u128) -> Function {
    Function {
        guid: FunctionGUID { guid },
        symbol: symbol(name),
        ty: Type {
            name: None,
            class: TypeClass::Void,
        },
        constraints: FunctionConstraints::default(),
    }
}

#[test]
fn test_guid_cache_computes_once() {
    let mut cache = GUIDCache::new();
    assert_eq!(cache.try_function_guid(FunctionID(7)), None);
    let first = cache.function_guid(FunctionID(7), || FunctionGUID { guid: 0xabc });
    assert_eq!(first, FunctionGUID { guid: 0xabc });
    assert_eq!(
        cache.try_function_guid(FunctionID(7)),
        Some(FunctionGUID { guid: 0xabc })
    );
    // A second call answers the cached GUID, not what its closure computes.
    let second = cache.function_guid(FunctionID(7), || FunctionGUID { guid: 0xdef });
    assert_eq!(second, FunctionGUID { guid: 0xabc });
    assert_eq!(cache.try_function_guid(FunctionID(8)), None);
}

#[test]
fn test_function_constraint_uses_cached_guid() {
    let mut cache = GUIDCache::new();
    let callee = analysis_function(2, 0x2000, 0x20, "callee");
    let without = cache.function_constraint(&callee, 16);
    assert_eq!(without.guid, None);
    assert_eq!(without.symbol, Some(symbol("callee")));
    assert_eq!(without.offset, 16);

    cache.function_guid(FunctionID(2), || FunctionGUID { guid: 0x55 });
    let with = cache.function_constraint(&callee, -4);
    assert_eq!(with.guid, Some(FunctionGUID { guid: 0x55 }));
    assert_eq!(with.symbol, Some(symbol("callee")));
    assert_eq!(with.offset, -4);

    let external = cache.function_constraint_from_symbol(&symbol("memcpy"), 8);
    assert_eq!(external.guid, None);
    assert_eq!(external.symbol, Some(symbol("memcpy")));
    assert_eq!(external.offset, 8);
}

#[test]
fn test_call_site_constraints() {
    let mut cache = GUIDCache::new();
    cache.function_guid(FunctionID(2), || FunctionGUID { guid: 0x99 });
    let function = analysis_function(1, 0x1000, 0x100, "caller");
    let call_sites = vec![
        CallSite {
            address: 0x1010,
            targets: vec![
                CallSiteTarget::Function(analysis_function(2, 0x3000, 0x10, "callee")),
                CallSiteTarget::Unresolved,
                // A call into the function itself gives no constraint.
                CallSiteTarget::Function(analysis_function(1, 0x1000, 0x100, "caller")),
            ],
        },
        CallSite {
            address: 0x1020,
            targets: vec![CallSiteTarget::Symbol(symbol("puts"))],
        },
        // The same call once more gives no second constraint.
        CallSite {
            address: 0x1010,
            targets: vec![CallSiteTarget::Function(analysis_function(
                2, 0x3000, 0x10, "callee",
            ))],
        },
    ];
    let constraints = cache.call_site_constraints(&function, &call_sites);
    assert_eq!(constraints.len(), 2);
    assert!(constraints.contains(&FunctionConstraint {
        guid: Some(FunctionGUID { guid: 0x99 }),
        symbol: Some(symbol("callee")),
        offset: 0x10,
    }));
    assert!(constraints.contains(&FunctionConstraint {
        guid: None,
        symbol: Some(symbol("puts")),
        offset: 0x20,
    }));
}

#[test]
fn test_call_site_before_function_start() {
    let cache = GUIDCache::new();
    let function = analysis_function(1, 0x1000, 0x100, "caller");
    let call_sites = vec![CallSite {
        address: 0x0ff0,
        targets: vec![CallSiteTarget::Symbol(symbol("puts"))],
    }];
    let constraints = cache.call_site_constraints(&function, &call_sites);
    assert_eq!(constraints.len(), 1);
    assert_eq!(constraints[0].offset, -16);
}

#[test]
fn test_adjacency_constraints_filter() {
    let cache = GUIDCache::new();
    let function = analysis_function(1, 0x1000, 0x100, "middle");
    let adjacent = vec![
        AdjacentFunctions {
            start: 0x0f00,
            functions: vec![analysis_function(2, 0x0f00, 0x80, "before")],
        },
        AdjacentFunctions {
            start: 0x1100,
            functions: vec![
                analysis_function(3, 0x1100, 0x4, "tiny"),
                analysis_function(1, 0x1000, 0x100, "middle"),
            ],
        },
    ];
    let all = cache.adjacency_constraints(&function, &adjacent, |_f: &AnalysisFunction| true);
    assert_eq!(all.len(), 2);
    assert!(all.contains(&FunctionConstraint {
        guid: None,
        symbol: Some(symbol("before")),
        offset: -0x100,
    }));
    assert!(all.contains(&FunctionConstraint {
        guid: None,
        symbol: Some(symbol("tiny")),
        offset: 0x100,
    }));
    let long_only = cache.adjacency_constraints(&function, &adjacent, |f: &AnalysisFunction| {
        f.highest_address - f.lowest_address > 0x10
    });
    assert_eq!(long_only.len(), 1);
    assert_eq!(long_only[0].symbol, Some(symbol("before")));
}

#[test]
fn test_matched_function_cache() {
    let mut cache = MatchedFunctionCache::new();
    assert!(cache.get(&FunctionID(1)).is_none());
    let previous = cache.insert(FunctionID(1), Some(warp_function("a", 1)));
    assert_eq!(previous, None);
    assert_eq!(cache.get(&FunctionID(1)), Some(Some(warp_function("a", 1))));
    let previous = cache.insert(FunctionID(1), None);
    assert_eq!(previous, Some(warp_function("a", 1)));
    // An absent match is recorded too.
    assert_eq!(cache.get(&FunctionID(1)), Some(None));
    assert!(cache.get(&FunctionID(2)).is_none());
}

#[test]
fn test_matched_get_or_insert_settles() {
    let mut cache = MatchedFunctionCache::new();
    let first = cache.get_or_insert(&FunctionID(3), || Some(warp_function("first", 3)));
    assert_eq!(first, Some(warp_function("first", 3)));
    let second = cache.get_or_insert(&FunctionID(3), || Some(warp_function("second", 4)));
    assert_eq!(second, Some(warp_function("first", 3)));
    assert_eq!(cache.get(&FunctionID(3)), Some(Some(warp_function("first", 3))));

    let none = cache.get_or_insert(&FunctionID(4), || None);
    assert_eq!(none, None);
    let still_none = cache.get_or_insert(&FunctionID(4), || Some(warp_function("late", 5)));
    assert_eq!(still_none, None);
}

#[test]
fn test_function_cache_builds_once() {
    let mut cache = FunctionCache::new();
    let first = cache.function(FunctionID(9), || warp_function("built", 9));
    assert_eq!(first, warp_function("built", 9));
    let second = cache.function(FunctionID(9), || warp_function("other", 10));
    assert_eq!(second, warp_function("built", 9));
    let other = cache.function(FunctionID(10), || warp_function("other", 10));
    assert_eq!(other, warp_function("other", 10));
}
