use std::collections::HashMap;
use warp_ninja::container::disk::{DiskContainer, DiskContainerSource};
use warp_ninja::container::memory::{MemoryContainer, MemorySource};
use warp_ninja::container::{Container, SourceId};
use warp_ninja::signature::{
    ComputedType, Data, Function, FunctionConstraints, FunctionGUID, Symbol, SymbolClass, Type,
    TypeClass, TypeGUID,
};

fn function(name: &str, guid: u128) -> Function {
    Function {
        guid: FunctionGUID { guid },
        symbol: Symbol {
            name: name.to_string(),
            modifiers: 0,
            class: SymbolClass::Function,
        },
        ty: Type {
            name: None,
            class: TypeClass::Void,
        },
        constraints: FunctionConstraints::default(),
    }
}

fn named_type(name: &str, width: u16) -> Type {
    Type {
        name: Some(name.to_string()),
        class: TypeClass::Boolean(width),
    }
}

fn computed(guid: u128, ty: Type) -> ComputedType {
    ComputedType {
        guid: TypeGUID { guid },
        ty,
    }
}

fn sample_data() -> Data {
    Data {
        functions: vec![
            function("a", 1),
            function("b", 2),
            function("a_again", 1),
        ],
        types: vec![
            computed(10, named_type("flag", 1)),
            computed(11, named_type("flag", 4)),
            computed(12, Type { name: None, class: TypeClass::Void }),
            computed(10, named_type("flag_last", 8)),
        ],
    }
}

#[test]
fn test_from_data_groups_functions() {
    let source = MemorySource::from_data(sample_data());
    assert_eq!(
        source.functions_with_guid(&FunctionGUID { guid: 1 }),
        vec![function("a", 1), function("a_again", 1)]
    );
    assert_eq!(
        source.functions_with_guid(&FunctionGUID { guid: 2 }),
        vec![function("b", 2)]
    );
    assert!(source.functions_with_guid(&FunctionGUID { guid: 3 }).is_empty());
    assert!(source.has_function_with_guid(&FunctionGUID { guid: 2 }));
    assert!(!source.has_function_with_guid(&FunctionGUID { guid: 3 }));
}

#[test]
fn test_from_data_types() {
    let source = MemorySource::from_data(sample_data());
    // The last type given for a GUID is the one held.
    assert_eq!(
        source.type_with_guid(&TypeGUID { guid: 10 }),
        Some(named_type("flag_last", 8))
    );
    assert_eq!(
        source.type_with_guid(&TypeGUID { guid: 11 }),
        Some(named_type("flag", 4))
    );
    assert!(source.has_type_with_guid(&TypeGUID { guid: 12 }));
    assert!(!source.has_type_with_guid(&TypeGUID { guid: 13 }));
    // Named types are grouped by name, in their order; unnamed ones are not listed.
    assert_eq!(
        source.type_guids_with_name("flag"),
        vec![TypeGUID { guid: 10 }, TypeGUID { guid: 11 }]
    );
    assert_eq!(
        source.type_guids_with_name("flag_last"),
        vec![TypeGUID { guid: 10 }]
    );
    assert!(source.type_guids_with_name("missing").is_empty());
}

#[test]
fn test_from_empty_data() {
    let source = MemorySource::from_data(Data::default());
    assert!(source.functions.is_empty());
    assert!(source.types.is_empty());
    assert!(source.named_types.is_empty());
}

#[test]
fn test_with_source_type_lookups() {
    let first = SourceId::from_u128(1);
    let second = SourceId::from_u128(2);
    let container = MemoryContainer::new()
        .with_source_type(first, TypeGUID { guid: 5 }, named_type("old", 1))
        .with_source_type(second, TypeGUID { guid: 6 }, named_type("other", 1))
        .with_source_type(first, TypeGUID { guid: 5 }, named_type("new", 2));
    assert_eq!(
        container.type_with_guid(&first, &TypeGUID { guid: 5 }),
        Some(named_type("new", 2))
    );
    assert_eq!(
        container.type_with_guid(&second, &TypeGUID { guid: 6 }),
        Some(named_type("other", 1))
    );
    assert_eq!(container.type_with_guid(&second, &TypeGUID { guid: 5 }), None);
    assert!(container.has_type_with_guid(&first, &TypeGUID { guid: 5 }));
    assert!(!container.has_type_with_guid(&first, &TypeGUID { guid: 6 }));
    // An unknown source holds nothing.
    assert_eq!(
        container.type_with_guid(&SourceId::from_u128(3), &TypeGUID { guid: 5 }),
        None
    );
}

#[test]
fn test_with_source_function_appends() {
    let id = SourceId::from_u128(4);
    let container = MemoryContainer::new()
        .with_source_function(id, FunctionGUID { guid: 8 }, function("one", 8))
        .with_source_function(id, FunctionGUID { guid: 8 }, function("two", 8))
        .with_source_function(id, FunctionGUID { guid: 9 }, function("three", 9));
    assert_eq!(
        container.functions_with_guid(&id, &FunctionGUID { guid: 8 }),
        vec![function("one", 8), function("two", 8)]
    );
    assert!(container.has_function_with_guid(&id, &FunctionGUID { guid: 9 }));
    assert!(!container.has_function_with_guid(&SourceId::from_u128(5), &FunctionGUID { guid: 9 }));
    assert_eq!(
        container.sources_with_function_guid(&FunctionGUID { guid: 8 }),
        vec![id]
    );
    assert!(container
        .sources_with_function_guid(&FunctionGUID { guid: 7 })
        .is_empty());
}

#[test]
fn test_with_source_replaces() {
    let id = SourceId::from_u128(6);
    let container = MemoryContainer::new()
        .with_source_function(id, FunctionGUID { guid: 8 }, function("one", 8))
        .with_source(id, MemorySource::from_data(sample_data()));
    assert!(!container.has_function_with_guid(&id, &FunctionGUID { guid: 8 }));
    assert!(container.has_function_with_guid(&id, &FunctionGUID { guid: 1 }));
    assert_eq!(
        container.type_guids_with_name(&id, "flag"),
        vec![TypeGUID { guid: 10 }, TypeGUID { guid: 11 }]
    );
    assert_eq!(container.to_string(), "MemoryContainer".to_string());
}

#[test]
fn test_source_ids_are_random() {
    let a = SourceId::new();
    let b = SourceId::new();
    assert_ne!(a, b);
    assert_eq!(SourceId::from_u128(42).0, 42);
}

#[test]
fn test_disk_container_sources() {
    let first = SourceId::from_u128(100);
    let mut sources = HashMap::new();
    sources.insert(
        first.0,
        DiskContainerSource::new("/signatures/a.sbin".to_string(), MemorySource::from_data(sample_data())),
    );
    let container = DiskContainer::new("signatures".to_string(), sources);
    assert_eq!(container.to_string(), "signatures".to_string());
    assert_eq!(
        container.type_with_guid(&first, &TypeGUID { guid: 11 }),
        Some(named_type("flag", 4))
    );
    assert_eq!(
        container.functions_with_guid(&first, &FunctionGUID { guid: 2 }),
        vec![function("b", 2)]
    );
    assert_eq!(
        container.sources_with_type_guid(&TypeGUID { guid: 12 }),
        vec![first]
    );
    let plural = container.sources_with_function_guids(&[
        FunctionGUID { guid: 1 },
        FunctionGUID { guid: 3 },
        FunctionGUID { guid: 2 },
    ]);
    assert_eq!(
        plural,
        vec![(first, vec![FunctionGUID { guid: 1 }, FunctionGUID { guid: 2 }])]
    );
}

#[test]
fn test_disk_container_source_path() {
    let source = DiskContainerSource::new("/tmp/x.sbin".to_string(), MemorySource::new());
    assert_eq!(source.path(), &"/tmp/x.sbin".to_string());
    assert_eq!(source.to_string(), "/tmp/x.sbin".to_string());
}

#[test]
fn test_source_ids_are_version_4() {
    let id = SourceId::new();
    assert_eq!((id.0 >> 76) & 0xf, 4);
    assert_eq!((id.0 >> 62) & 0x3, 2);
}

#[test]
fn test_from_data_named_types_field() {
    let source = MemorySource::from_data(sample_data());
    // One entry per name that occurs, in order of first occurrence, each with its GUIDs in order.
    assert_eq!(
        source.named_types,
        vec![
            ("flag".to_string(), vec![TypeGUID { guid: 10 }, TypeGUID { guid: 11 }]),
            ("flag_last".to_string(), vec![TypeGUID { guid: 10 }]),
        ]
    );
    let functions_only = MemorySource::from_data(Data {
        functions: vec![function("a", 1), function("b", 1)],
        types: vec![],
    });
    assert!(functions_only.named_types.is_empty());
    assert!(functions_only.types.is_empty());
    assert_eq!(
        functions_only.functions_with_guid(&FunctionGUID { guid: 1 }).len(),
        2
    );
    assert_eq!(functions_only.clone(), functions_only);
}
