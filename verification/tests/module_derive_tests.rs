use sylphie::module_derive::{
    derive_module, module_metadata, DeriveError, FieldAttr, FieldAttrError, FieldAttrs, FieldInit,
    InputShape, ModuleFlag,
};

fn attr(name: &str) -> FieldAttr {
    FieldAttr { name: name.to_string(), args_are_expr: true }
}

#[test]
fn field_attributes_are_read() {
    let attrs = FieldAttrs::from_attrs(&vec![attr("doc"), attr("module_info")]).unwrap();
    assert!(attrs.is_module_info && !attrs.is_submodule && !attrs.is_core_ref);
    assert_eq!(attrs.init_with, None);
    let attrs = FieldAttrs::from_attrs(&vec![attr("init_with")]).unwrap();
    assert_eq!(attrs.init_with, Some(0));
    let attrs = FieldAttrs::from_attrs(&vec![]).unwrap();
    assert!(!attrs.is_module_info && !attrs.is_submodule && !attrs.is_core_ref);
}

#[test]
fn a_repeated_marker_is_passed_over() {
    let attrs = FieldAttrs::from_attrs(&vec![attr("submodule"), attr("submodule")]).unwrap();
    assert!(attrs.is_submodule);
}

#[test]
fn field_attribute_errors() {
    assert_eq!(
        FieldAttrs::from_attrs(&vec![attr("init_with"), attr("doc"), attr("init_with")]),
        Err(FieldAttrError::DuplicateInitWith { attr: 2 })
    );
    assert_eq!(
        FieldAttrs::from_attrs(&vec![FieldAttr { name: "init_with".to_string(), args_are_expr: false }]),
        Err(FieldAttrError::BadInitExpression { attr: 0 })
    );
    assert_eq!(
        FieldAttrs::from_attrs(&vec![attr("module_info"), attr("core_ref"), attr("doc")]),
        Err(FieldAttrError::Conflicting { attr: 1 })
    );
}

#[test]
fn a_module_is_planned() {
    let fields = vec![
        vec![attr("module_info")],
        vec![attr("submodule")],
        vec![attr("doc"), attr("init_with")],
        vec![attr("core_ref")],
        vec![],
    ];
    let plan = derive_module(InputShape::NamedStruct, &fields).ok().unwrap();
    assert_eq!(plan.info_field, 0);
    assert_eq!(
        plan.fields,
        vec![
            FieldInit::Default,
            FieldInit::Submodule,
            FieldInit::InitWith { attr: 1 },
            FieldInit::CoreRef,
            FieldInit::Default,
        ]
    );
}

#[test]
fn module_errors() {
    let one = vec![vec![attr("module_info")]];
    assert_eq!(derive_module(InputShape::NotAStruct, &one).err(), Some(DeriveError::NotAStruct));
    assert_eq!(derive_module(InputShape::OtherStruct, &one).err(), Some(DeriveError::NotNamedFields));
    let none = vec![vec![attr("submodule")], vec![]];
    assert_eq!(derive_module(InputShape::NamedStruct, &none).err(), Some(DeriveError::MissingModuleInfo));
    let two = vec![vec![attr("module_info")], vec![], vec![attr("module_info")]];
    assert_eq!(
        derive_module(InputShape::NamedStruct, &two).err(),
        Some(DeriveError::DuplicateModuleInfo { field: 2 })
    );
    let bad = vec![vec![attr("module_info")], vec![attr("submodule"), attr("core_ref")]];
    assert_eq!(
        derive_module(InputShape::NamedStruct, &bad).err(),
        Some(DeriveError::Field { field: 1, error: FieldAttrError::Conflicting { attr: 1 } })
    );
}

#[test]
fn error_texts() {
    assert_eq!(DeriveError::NotAStruct.message(), "#[derive(Module)] may only be used with structs.");
    assert_eq!(
        DeriveError::NotNamedFields.message(),
        "#[derive(Module)] can only be used on structs with named fields."
    );
    assert_eq!(
        DeriveError::MissingModuleInfo.message(),
        "At least one field must be marked with #[module_info]."
    );
    assert_eq!(
        DeriveError::DuplicateModuleInfo { field: 3 }.message(),
        "Only one #[module_info] field may be present."
    );
    assert_eq!(
        DeriveError::Field { field: 0, error: FieldAttrError::DuplicateInitWith { attr: 1 } }.message(),
        "Only one #[init_with] attribute can be used."
    );
    assert_eq!(
        DeriveError::Field { field: 0, error: FieldAttrError::Conflicting { attr: 1 } }.message(),
        "Only one of #[init_with], #[module_info], #[submodule], or #[core_ref] may be used on one field."
    );
    assert_eq!(
        DeriveError::Field { field: 0, error: FieldAttrError::BadInitExpression { attr: 1 } }.message(),
        "The arguments of #[init_with] must be an expression."
    );
}

#[test]
fn module_flags() {
    assert_eq!(module_metadata(false, false, false), vec![]);
    assert_eq!(
        module_metadata(true, true, true),
        vec![ModuleFlag::Integral, ModuleFlag::IntegralRecursive, ModuleFlag::Anonymous]
    );
    assert_eq!(module_metadata(false, true, false), vec![ModuleFlag::IntegralRecursive]);
}
