use omni_compiler::abi_check::compare_documents;
use omni_compiler::type_export::{
    ExportDocument, ExportedEnum, ExportedField, ExportedFunction, ExportedItem, ExportedParam,
    ExportedStruct, ExportedVariant,
};

fn field(name: &str, ty: &str) -> ExportedField {
    ExportedField { name: name.to_string(), type_label: ty.to_string() }
}

fn function(name: &str, params: &[&str], ret: Option<&str>) -> ExportedItem {
    ExportedItem::Function(ExportedFunction {
        name: name.to_string(),
        type_params: vec![],
        params: params
            .iter()
            .enumerate()
            .map(|(i, t)| ExportedParam { name: format!("p{}", i), type_label: t.to_string() })
            .collect(),
        return_type: ret.map(|s| s.to_string()),
        effects: vec![],
    })
}

fn doc(items: Vec<ExportedItem>) -> ExportDocument {
    ExportDocument { items }
}

#[test]
fn identical_documents_have_no_differences() {
    let a = doc(vec![function("f", &["int"], Some("int"))]);
    let b = doc(vec![function("f", &["int"], Some("int"))]);
    assert!(compare_documents(&a, &b).is_empty());
}

#[test]
fn removed_item_is_reported() {
    let a = doc(vec![function("f", &[], None)]);
    let b = doc(vec![]);
    assert_eq!(compare_documents(&a, &b), vec!["function 'f' was removed".to_string()]);
}

#[test]
fn function_signature_changes() {
    let a = doc(vec![function("f", &["int", "bool"], Some("int"))]);
    let b = doc(vec![function("f", &["string"], Some("bool"))]);
    assert_eq!(
        compare_documents(&a, &b),
        vec![
            "function 'f' parameter count changed from 2 to 1".to_string(),
            "function 'f' parameter 0 type changed from \"int\" to \"string\"".to_string(),
            "function 'f' return type changed from Some(\"int\") to Some(\"bool\")".to_string(),
        ]
    );
}

#[test]
fn struct_changes() {
    let a = doc(vec![ExportedItem::Struct(ExportedStruct {
        name: "P".to_string(),
        is_linear: false,
        fields: vec![field("x", "int"), field("y", "int")],
    })]);
    let b = doc(vec![ExportedItem::Struct(ExportedStruct {
        name: "P".to_string(),
        is_linear: true,
        fields: vec![field("z", "float")],
    })]);
    assert_eq!(
        compare_documents(&a, &b),
        vec![
            "struct 'P' linearity changed from false to true".to_string(),
            "struct 'P' field count changed from 2 to 1".to_string(),
            "struct 'P' field 0 name changed from 'x' to 'z'".to_string(),
            "struct 'P' field 'x' type changed from 'int' to 'float'".to_string(),
        ]
    );
}

#[test]
fn enum_changes() {
    let a = doc(vec![ExportedItem::Enum(ExportedEnum {
        name: "E".to_string(),
        is_sealed: true,
        variants: vec![ExportedVariant { name: "A".to_string(), fields: vec![field("v", "int")] }],
    })]);
    let b = doc(vec![ExportedItem::Enum(ExportedEnum {
        name: "E".to_string(),
        is_sealed: true,
        variants: vec![ExportedVariant { name: "B".to_string(), fields: vec![] }],
    })]);
    assert_eq!(
        compare_documents(&a, &b),
        vec![
            "enum 'E' variant 0 name changed from 'A' to 'B'".to_string(),
            "enum 'E' variant 'A' field count changed from 1 to 0".to_string(),
        ]
    );
}

#[test]
fn items_match_by_kind_and_name() {
    let a = doc(vec![function("S", &[], None)]);
    let b = doc(vec![ExportedItem::Struct(ExportedStruct { name: "S".to_string(), is_linear: false, fields: vec![] })]);
    assert_eq!(compare_documents(&a, &b), vec!["function 'S' was removed".to_string()]);
}

#[test]
fn added_items_are_not_reported() {
    let a = doc(vec![function("f", &["int"], Some("int"))]);
    let b = doc(vec![function("f", &["int"], Some("int")), function("g", &[], None)]);
    assert!(compare_documents(&a, &b).is_empty());
}
