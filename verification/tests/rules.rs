use warp_ninja::analysis::{
    AdjacentFunctions, AnalysisFunction, CallSite, CallSiteTarget, FunctionID,
    FunctionSurroundings,
};
use warp_ninja::build_function;
use warp_ninja::cache::GUIDCache;
use warp_ninja::container::memory::MemoryContainer;
use warp_ninja::container::SourceId;
use warp_ninja::matcher::{
    candidate_functions, Matcher, MatcherSettings, StoredMatcherSettings, ViewFunction,
};
use warp_ninja::signature::{
    Function, FunctionConstraint, FunctionConstraints, FunctionGUID, Symbol, SymbolClass, Type,
    TypeClass, TypeGUID,
};
use warp_ninja::view_types::ViewTypes;

fn symbol(name: &str) -> Symbol {
    Symbol {
        name: name.to_string(),
        modifiers: 0,
        class: SymbolClass::Function,
    }
}

fn analysis_function(id: u64, start: u64, len: u64, name: &str) -> AnalysisFunction {
    AnalysisFunction {
        id: FunctionID(id),
        start,
        lowest_address: start,
        highest_address: start + len,
        symbol: symbol(name),
    }
}

fn warp_function(name: &str, guid: u128) -> Function {
    Function {
        guid: FunctionGUID { guid },
        symbol: symbol(name),
        ty: Type {
            name: None,
            class: TypeClass::Void,
        },
        constraints: FunctionConstraints::default(),
    }
}

fn no_surroundings() -> FunctionSurroundings {
    FunctionSurroundings {
        call_sites: vec![],
        adjacent: vec![],
    }
}

#[test]
fn test_settings_from_empty_store_are_default() {
    let settings = MatcherSettings::from_settings(&StoredMatcherSettings::default());
    assert_eq!(settings, MatcherSettings::default());
    assert_eq!(settings.trivial_function_len, 20);
    assert_eq!(settings.minimum_function_len, 0);
    assert_eq!(settings.maximum_function_len, None);
    assert_eq!(settings.minimum_matched_constraints, 1);
    assert!(!settings.trivial_function_adjacent_allowed);
}

#[test]
fn test_settings_from_store_values() {
    let stored = StoredMatcherSettings {
        trivial_function_len: Some(8),
        minimum_function_len: Some(4),
        maximum_function_len: Some(0x1000),
        minimum_matched_constraints: Some(3),
        trivial_function_adjacent_allowed: Some(true),
    };
    let settings = MatcherSettings::from_settings(&stored);
    assert_eq!(settings.trivial_function_len, 8);
    assert_eq!(settings.minimum_function_len, 4);
    assert_eq!(settings.maximum_function_len, Some(0x1000));
    assert_eq!(settings.minimum_matched_constraints, 3);
    assert!(settings.trivial_function_adjacent_allowed);

    // A stored maximum of zero means no maximum.
    let unlimited = MatcherSettings::from_settings(&StoredMatcherSettings {
        maximum_function_len: Some(0),
        ..StoredMatcherSettings::default()
    });
    assert_eq!(unlimited.maximum_function_len, None);
}

#[test]
fn test_adjacent_function_allowed() {
    let matcher = Matcher::new(MatcherSettings::default());
    assert!(matcher.adjacent_function_allowed(&analysis_function(1, 0x100, 21, "long")));
    assert!(!matcher.adjacent_function_allowed(&analysis_function(1, 0x100, 20, "short")));
    let lenient = Matcher::new(MatcherSettings {
        trivial_function_adjacent_allowed: true,
        ..MatcherSettings::default()
    });
    assert!(lenient.adjacent_function_allowed(&analysis_function(1, 0x100, 2, "short")));
}

#[test]
fn test_sole_candidate_matches() {
    let matcher = Matcher::new(MatcherSettings::default());
    let cache = GUIDCache::new();
    let candidates = vec![warp_function("only", 1)];
    let function = analysis_function(1, 0x1000, 0x40, "sub_1000");
    let matched =
        matcher.match_function_from_constraints(&cache, &function, &no_surroundings(), &candidates);
    assert_eq!(matched, Some(&candidates[0]));
}

#[test]
fn test_length_out_of_bounds_never_matches() {
    let matcher = Matcher::new(MatcherSettings {
        minimum_function_len: 0x20,
        maximum_function_len: Some(0x100),
        ..MatcherSettings::default()
    });
    let cache = GUIDCache::new();
    let candidates = vec![warp_function("only", 1)];
    let short = analysis_function(1, 0x1000, 0x1f, "short");
    assert_eq!(
        matcher.match_function_from_constraints(&cache, &short, &no_surroundings(), &candidates),
        None
    );
    let long = analysis_function(1, 0x1000, 0x101, "long");
    assert_eq!(
        matcher.match_function_from_constraints(&cache, &long, &no_surroundings(), &candidates),
        None
    );
    let fine = analysis_function(1, 0x1000, 0x80, "fine");
    assert_eq!(
        matcher.match_function_from_constraints(&cache, &fine, &no_surroundings(), &candidates),
        Some(&candidates[0])
    );
    // Lengths equal to either bound are allowed.
    let at_minimum = analysis_function(1, 0x1000, 0x20, "at_minimum");
    assert_eq!(
        matcher.match_function_from_constraints(&cache, &at_minimum, &no_surroundings(), &candidates),
        Some(&candidates[0])
    );
    let at_maximum = analysis_function(1, 0x1000, 0x100, "at_maximum");
    assert_eq!(
        matcher.match_function_from_constraints(&cache, &at_maximum, &no_surroundings(), &candidates),
        Some(&candidates[0])
    );
    // No candidates, no match.
    assert_eq!(
        matcher.match_function_from_constraints(&cache, &fine, &no_surroundings(), &[]),
        None
    );
}

#[test]
fn test_without_constraints_nothing_is_singled_out() {
    let matcher = Matcher::new(MatcherSettings::default());
    let cache = GUIDCache::new();
    // A trivial function is not matched to its sole candidate without constraints.
    let trivial = analysis_function(1, 0x1000, 0x8, "tiny");
    let candidates = vec![warp_function("only", 1)];
    assert_eq!(
        matcher.match_function_from_constraints(&cache, &trivial, &no_surroundings(), &candidates),
        None
    );
    // Two candidates and no constraints: no match.
    let function = analysis_function(1, 0x1000, 0x40, "sub_1000");
    let two = vec![warp_function("one", 1), warp_function("two", 1)];
    assert_eq!(
        matcher.match_function_from_constraints(&cache, &function, &no_surroundings(), &two),
        None
    );
}

#[test]
fn test_call_site_guid_singles_out_candidate() {
    let matcher = Matcher::new(MatcherSettings::default());
    let mut cache = GUIDCache::new();
    cache.function_guid(FunctionID(2), || FunctionGUID { guid: 0x77 });
    let function = analysis_function(1, 0x1000, 0x40, "sub_1000");
    let surroundings = FunctionSurroundings {
        call_sites: vec![CallSite {
            address: 0x1008,
            targets: vec![CallSiteTarget::Function(analysis_function(2, 0x4000, 0x30, "helper"))],
        }],
        adjacent: vec![],
    };
    let mut with_call = warp_function("with_call", 1);
    with_call.constraints.call_sites.push(FunctionConstraint {
        guid: Some(FunctionGUID { guid: 0x77 }),
        symbol: None,
        offset: 8,
    });
    let without_call = warp_function("without_call", 1);
    let candidates = vec![without_call, with_call];
    let matched =
        matcher.match_function_from_constraints(&cache, &function, &surroundings, &candidates);
    assert_eq!(matched, Some(&candidates[1]));

    // Requiring two matched constraints leaves it unmatched.
    let strict = Matcher::new(MatcherSettings {
        minimum_matched_constraints: 2,
        ..MatcherSettings::default()
    });
    assert_eq!(
        strict.match_function_from_constraints(&cache, &function, &surroundings, &candidates),
        None
    );
}

#[test]
fn test_tied_candidates_are_not_matched() {
    let matcher = Matcher::new(MatcherSettings::default());
    let cache = GUIDCache::new();
    let function = analysis_function(1, 0x1000, 0x40, "sub_1000");
    let surroundings = FunctionSurroundings {
        call_sites: vec![CallSite {
            address: 0x1008,
            targets: vec![CallSiteTarget::Symbol(symbol("puts"))],
        }],
        adjacent: vec![],
    };
    let constraint = FunctionConstraint {
        guid: None,
        symbol: Some(symbol("puts")),
        offset: 8,
    };
    let mut a = warp_function("a", 1);
    a.constraints.call_sites.push(constraint.clone());
    let mut b = warp_function("b", 1);
    b.constraints.call_sites.push(constraint);
    let candidates = vec![a, b];
    assert_eq!(
        matcher.match_function_from_constraints(&cache, &function, &surroundings, &candidates),
        None
    );
}

#[test]
fn test_candidate_functions_and_functions_to_update() {
    let source = SourceId::from_u128(1);
    let container = MemoryContainer::new()
        .with_source_function(source, FunctionGUID { guid: 0x10 }, warp_function("known", 0x10));
    assert_eq!(
        candidate_functions(&container, &FunctionGUID { guid: 0x10 }),
        vec![warp_function("known", 0x10)]
    );
    assert!(candidate_functions(&container, &FunctionGUID { guid: 0x11 }).is_empty());

    let mut cache = GUIDCache::new();
    cache.function_guid(FunctionID(1), || FunctionGUID { guid: 0x10 });
    cache.function_guid(FunctionID(2), || FunctionGUID { guid: 0x11 });
    let functions = vec![
        ViewFunction {
            function: analysis_function(1, 0x1000, 0x40, "sub_1000"),
            surroundings: no_surroundings(),
        },
        ViewFunction {
            function: analysis_function(2, 0x2000, 0x40, "sub_2000"),
            surroundings: no_surroundings(),
        },
        // No GUID cached: not considered.
        ViewFunction {
            function: analysis_function(3, 0x3000, 0x40, "sub_3000"),
            surroundings: no_surroundings(),
        },
    ];
    let matcher = Matcher::new(MatcherSettings::default());
    assert_eq!(
        matcher.functions_to_update(&cache, &container, &functions),
        vec![FunctionID(1)]
    );
}

#[test]
fn test_build_function() {
    let mut cache = GUIDCache::new();
    let function = analysis_function(1, 0x1000, 0x40, "sub_1000");
    let surroundings = FunctionSurroundings {
        call_sites: vec![CallSite {
            address: 0x1004,
            targets: vec![CallSiteTarget::Symbol(symbol("puts"))],
        }],
        adjacent: vec![AdjacentFunctions {
            start: 0x1040,
            functions: vec![analysis_function(2, 0x1040, 0x4, "next")],
        }],
    };
    let ty = Type {
        name: None,
        class: TypeClass::Void,
    };
    let built = build_function(&mut cache, &function, &surroundings, ty.clone(), || {
        FunctionGUID { guid: 0xfeed }
    });
    assert_eq!(built.guid, FunctionGUID { guid: 0xfeed });
    assert_eq!(built.symbol, symbol("sub_1000"));
    assert_eq!(built.ty, ty);
    assert_eq!(
        built.constraints.call_sites,
        vec![FunctionConstraint {
            guid: None,
            symbol: Some(symbol("puts")),
            offset: 4,
        }]
    );
    // Trivial adjacent functions are kept when building.
    assert_eq!(
        built.constraints.adjacent,
        vec![FunctionConstraint {
            guid: None,
            symbol: Some(symbol("next")),
            offset: 0x40,
        }]
    );
    assert!(built.constraints.caller_sites.is_empty());
    assert_eq!(cache.try_function_guid(FunctionID(1)), Some(FunctionGUID { guid: 0xfeed }));

    // Built again, the cached GUID is used.
    let again = build_function(&mut cache, &function, &surroundings, ty, || FunctionGUID {
        guid: 0xbad,
    });
    assert_eq!(again.guid, FunctionGUID { guid: 0xfeed });
}

#[test]
fn test_view_types_lookups() {
    let mut view = ViewTypes::new(vec![TypeGUID { guid: 1 }], vec!["int".to_string()]);
    assert!(view.has_id(&TypeGUID { guid: 1 }));
    assert!(!view.has_id(&TypeGUID { guid: 2 }));
    assert!(view.has_name(&"int".to_string()));
    assert!(!view.has_name(&"long".to_string()));
    let ty = Type {
        name: None,
        class: TypeClass::Referrer(Some(TypeGUID { guid: 2 }), Some("long".to_string())),
    };
    view.define("long".to_string(), TypeGUID { guid: 2 }, ty);
    assert!(view.has_id(&TypeGUID { guid: 2 }));
    assert!(view.has_name(&"long".to_string()));
    assert_eq!(view.definitions.len(), 1);
}

#[test]
fn test_add_leaf_type_leaves_view_unchanged() {
    let matcher = Matcher::new(MatcherSettings::default());
    let container = MemoryContainer::new();
    let source = SourceId::from_u128(1);
    let mut view = ViewTypes::new(vec![], vec![]);
    let leaf = Type {
        name: Some("flag".to_string()),
        class: TypeClass::Boolean(1),
    };
    matcher.add_type_to_view(&container, &source, &mut view, &leaf);
    assert!(view.ids.is_empty());
    assert!(view.names.is_empty());
    assert!(view.definitions.is_empty());
}

#[test]
fn test_add_type_resolves_by_name() {
    let matcher = Matcher::new(MatcherSettings::default());
    let source = SourceId::from_u128(1);
    let target = Type {
        name: Some("target".to_string()),
        class: TypeClass::Pointer(Box::new(Type {
            name: None,
            class: TypeClass::Referrer(Some(TypeGUID { guid: 0x31 }), Some("deep".to_string())),
        })),
    };
    let container = MemoryContainer::new()
        .with_source(
            source,
            warp_ninja::container::memory::MemorySource::from_data(warp_ninja::signature::Data {
                functions: vec![],
                types: vec![warp_ninja::signature::ComputedType {
                    guid: TypeGUID { guid: 0x30 },
                    ty: target,
                }],
            }),
        );
    // Referred to by name only: the one type with the name is resolved, and what it refers to
    // is defined in the view.
    let by_name = Type {
        name: None,
        class: TypeClass::Referrer(None, Some("target".to_string())),
    };
    let mut view = ViewTypes::new(vec![], vec![]);
    matcher.add_type_to_view(&container, &source, &mut view, &by_name);
    assert_eq!(view.definitions.len(), 1);
    assert_eq!(view.definitions[0].name, "deep".to_string());
    assert_eq!(view.definitions[0].guid, TypeGUID { guid: 0x31 });
}

#[test]
fn test_add_type_name_cycle_terminates() {
    let matcher = Matcher::new(MatcherSettings::default());
    let source = SourceId::from_u128(1);
    // A list node that refers to itself by name only.
    let node = Type {
        name: Some("node".to_string()),
        class: TypeClass::Structure(vec![Type {
            name: None,
            class: TypeClass::Pointer(Box::new(Type {
                name: None,
                class: TypeClass::Referrer(None, Some("node".to_string())),
            })),
        }]),
    };
    let container = MemoryContainer::new().with_source(
        source,
        warp_ninja::container::memory::MemorySource::from_data(warp_ninja::signature::Data {
            functions: vec![],
            types: vec![warp_ninja::signature::ComputedType {
                guid: TypeGUID { guid: 0x40 },
                ty: node,
            }],
        }),
    );
    let reference = Type {
        name: None,
        class: TypeClass::Referrer(Some(TypeGUID { guid: 0x41 }), Some("node".to_string())),
    };
    let mut view = ViewTypes::new(vec![], vec![]);
    matcher.add_type_to_view(&container, &source, &mut view, &reference);
    // The GUID is unknown to the source, the name resolves once, and the reference itself is
    // defined last.
    assert_eq!(view.definitions.len(), 1);
    assert_eq!(view.definitions[0].guid, TypeGUID { guid: 0x41 });
    assert_eq!(view.definitions[0].name, "node".to_string());
    assert_eq!(view.ids, vec![TypeGUID { guid: 0x41 }]);
}
