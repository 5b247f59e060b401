use std::collections::HashSet;
use std::str::FromStr;
use uuid::Uuid;
use warp_ninja::container::memory::MemoryContainer;
use warp_ninja::container::{Container, SourceId};
use warp_ninja::signature::{
    Function, FunctionConstraints, FunctionGUID, Symbol, SymbolClass, Type, TypeClass, TypeGUID,
};

fn boolean_type(name: &str, width: u16, guid: u128) -> (TypeGUID, Type) {
    let ty = Type {
        name: Some(name.to_string()),
        class: TypeClass::Boolean(width),
    };
    (TypeGUID { guid }, ty)
}

fn type_0() -> (TypeGUID, Type) {
    boolean_type("type_0", 1, 0x1000)
}

fn type_1() -> (TypeGUID, Type) {
    boolean_type("type_1", 4, 0x1001)
}

fn type_2() -> (TypeGUID, Type) {
    boolean_type("type_2", 8, 0x1002)
}

fn function_named(name: &str, uuid: &str) -> (FunctionGUID, Function) {
    let guid = FunctionGUID {
        guid: Uuid::from_str(uuid).unwrap().as_u128(),
    };
    let function = Function {
        guid,
        symbol: Symbol {
            name: name.to_string(),
            modifiers: 0,
            class: SymbolClass::Function,
        },
        ty: Type {
            name: None,
            class: TypeClass::Void,
        },
        constraints: FunctionConstraints::default(),
    };
    (guid, function)
}

fn func_0() -> (FunctionGUID, Function) {
    function_named("func_0", "d4e56ec8-1f2b-4a87-9f2c-bc3f10c4d8e9")
}

fn func_1() -> (FunctionGUID, Function) {
    function_named("func_1", "b713c293-463a-5baa-b31b-ed010510d5c0")
}

fn guids_of<'a, G>(result: &'a [(SourceId, Vec<G>)], source: &SourceId) -> Option<&'a Vec<G>> {
    result.iter().find(|(id, _)| id == source).map(|(_, guids)| guids)
}

#[test]
fn test_sources_with_type_guid() {
    let source1 = SourceId::new();
    let source2 = SourceId::new();
    let (guid_1, ty_1) = type_0();
    let (guid_2, ty_2) = type_1();

    let container = MemoryContainer::new()
        .with_source_type(source1, guid_1, ty_1)
        .with_source_type(source1, guid_2, ty_2.clone())
        .with_source_type(source2, guid_2, ty_2);

    let result = container.sources_with_type_guid(&guid_2);
    // HashSet used for unordered comparison
    let result_set: HashSet<_> = result.into_iter().collect();
    let expected_set: HashSet<_> = vec![source1, source2].into_iter().collect();
    assert_eq!(result_set, expected_set);

    let result = container.sources_with_type_guid(&guid_1);
    // HashSet used for unordered comparison
    let result_set: HashSet<_> = result.into_iter().collect();
    let expected_set: HashSet<_> = vec![source1].into_iter().collect();
    assert_eq!(result_set, expected_set);
}

#[test]
fn test_sources_with_function_guid() {
    let source1 = SourceId::new();
    let source2 = SourceId::new();
    let (guid_1, fn_1) = func_0();
    let (guid_2, fn_2) = func_1();

    let container = MemoryContainer::new()
        .with_source_function(source1, guid_1, fn_1)
        .with_source_function(source1, guid_2, fn_2.clone())
        .with_source_function(source2, guid_2, fn_2);

    let result = container.sources_with_function_guid(&guid_2);
    // HashSet used for unordered comparison
    let result_set: HashSet<_> = result.into_iter().collect();
    let expected_set: HashSet<_> = vec![source1, source2].into_iter().collect();
    assert_eq!(result_set, expected_set);

    let result = container.sources_with_function_guid(&guid_1);
    assert_eq!(result, vec![source1]);
}

#[test]
fn test_sources_with_type_guids() {
    let source1 = SourceId::new();
    let source2 = SourceId::new();
    let (guid_1, ty_1) = type_0();
    let (guid_2, ty_2) = type_1();
    let (guid_3, ty_3) = type_2();

    let container = MemoryContainer::new()
        .with_source_type(source1, guid_1, ty_1)
        .with_source_type(source1, guid_2, ty_2.clone())
        .with_source_type(source2, guid_2, ty_2)
        .with_source_type(source2, guid_3, ty_3);

    let result = container.sources_with_type_guids(&[guid_2.clone(), guid_3.clone()]);
    assert_eq!(result.len(), 2);
    assert!(guids_of(&result, &source1).unwrap().contains(&guid_2));
    assert!(guids_of(&result, &source2).unwrap().contains(&guid_2));
    assert!(guids_of(&result, &source2).unwrap().contains(&guid_3));
}
