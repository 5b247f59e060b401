use uuid::Uuid;
use warp_ninja::analysis::{
    AdjacentFunctions, AnalysisFunction, FunctionID, FunctionSurroundings,
};
use warp_ninja::cache::GUIDCache;
use warp_ninja::container::memory::MemoryContainer;
use warp_ninja::container::SourceId;
use warp_ninja::matcher::{Matcher, MatcherSettings};
use warp_ninja::signature::{
    Function, FunctionConstraint, FunctionConstraints, FunctionGUID, Symbol, SymbolClass, Type,
    TypeClass, TypeGUID,
};
use warp_ninja::view_types::ViewTypes;

fn create_mock_function(name: &str) -> (FunctionGUID, Function) {
    let guid = FunctionGUID {
        guid: Uuid::new_v5(&Uuid::NAMESPACE_OID, name.as_bytes()).as_u128(),
    };
    let function = Function {
        guid,
        symbol: Symbol {
            name: name.to_string(),
            modifiers: 0,
            class: SymbolClass::Function,
        },
        ty: Type {
            name: None,
            class: TypeClass::Void,
        },
        constraints: FunctionConstraints::default(),
    };
    (guid, function)
}

fn analysis_function(id: u64, start: u64, len: u64, name: &str) -> AnalysisFunction {
    AnalysisFunction {
        id: FunctionID(id),
        start,
        lowest_address: start,
        highest_address: start + len,
        symbol: Symbol {
            name: name.to_string(),
            modifiers: 0,
            class: SymbolClass::Function,
        },
    }
}

#[test]
fn test_match_function() {
    let matcher_settings = MatcherSettings::default();
    let _matcher = Matcher::new(matcher_settings);

    let (func_guid, func) = create_mock_function("test_match_function");

    let memory_container = MemoryContainer::new();
    let source = SourceId::new();
    let _memory_container = memory_container.with_source_function(source, func_guid, func);
}

#[test]
fn test_match_function_from_constraints() {
    let matcher_settings = MatcherSettings::default();
    let matcher = Matcher::new(matcher_settings);
    let (_func_guid, mut function) = create_mock_function("test_constraint_function");
    // Add constraint
    function.constraints.adjacent.push(FunctionConstraint {
        guid: None,
        symbol: Some(Symbol {
            name: "my_function".to_string(),
            modifiers: 0,
            class: SymbolClass::Function,
        }),
        offset: -10,
    });

    let matched_func_1 = function.clone();
    let mut matched_func_2 = function.clone();
    // Remove the constraint from 2, this means that the first matched_func should match.
    matched_func_2.constraints.adjacent.clear();
    let matched_functions = vec![matched_func_1, matched_func_2];

    // The analysed function, 10 bytes after the function `my_function`.
    let analysed = analysis_function(1, 0x1000, 0x40, "sub_1000");
    let surroundings = FunctionSurroundings {
        call_sites: vec![],
        adjacent: vec![AdjacentFunctions {
            start: 0x1000 - 10,
            functions: vec![analysis_function(2, 0x1000 - 10, 0x30, "my_function")],
        }],
    };
    let guid_cache = GUIDCache::new();
    let matched = matcher.match_function_from_constraints(
        &guid_cache,
        &analysed,
        &surroundings,
        &matched_functions,
    );

    assert!(matched.is_some());
    assert_eq!(matched.unwrap(), &function);
}

#[test]
fn test_add_type_to_view() {
    let matcher_settings = MatcherSettings::default();
    let matcher = Matcher::new(matcher_settings);

    let inner_guid = TypeGUID { guid: 0x2000 };
    let inner = Type {
        name: Some("inner".to_string()),
        class: TypeClass::Boolean(1),
    };
    let source = SourceId::new();
    let memory_container = MemoryContainer::new().with_source_type(source, inner_guid, inner);

    let referrer = Type {
        name: None,
        class: TypeClass::Referrer(Some(inner_guid), Some("inner".to_string())),
    };
    let pointer = Type {
        name: Some("inner_ptr".to_string()),
        class: TypeClass::Pointer(Box::new(referrer.clone())),
    };
    let mut view = ViewTypes::new(vec![], vec![]);
    matcher.add_type_to_view(&memory_container, &source, &mut view, &pointer);

    assert_eq!(view.definitions.len(), 1);
    assert_eq!(view.definitions[0].name, "inner".to_string());
    assert_eq!(view.definitions[0].guid, inner_guid);
    assert_eq!(view.definitions[0].ty, referrer);
    assert_eq!(view.ids, vec![inner_guid]);
    assert_eq!(view.names, vec!["inner".to_string()]);
}
