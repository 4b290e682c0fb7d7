use omni_compiler::ast::EnumVariant;
use omni_compiler::codegen_lir::{
    abi_for_annotation, allocate_local_aggregate, constant_slice_window, ordered_aggregate_fields, slot_of,
    validate_enum_initializer, ValueAbi,
};
use omni_compiler::strmap::StrMap;

fn pair(a: &str, b: &str) -> (String, String) {
    (a.to_string(), b.to_string())
}

fn structs() -> StrMap<Vec<(String, String)>> {
    let mut m = StrMap::new();
    m.insert("Point".to_string(), vec![pair("x", "int"), pair("y", "Bool")]);
    m.insert("Bad".to_string(), vec![pair("s", "String")]);
    m
}

fn enums() -> StrMap<Vec<EnumVariant>> {
    let mut m = StrMap::new();
    m.insert(
        "Opt".to_string(),
        vec![
            EnumVariant { name: "None".to_string(), fields: vec![] },
            EnumVariant { name: "Some".to_string(), fields: vec![pair("v", "int")] },
        ],
    );
    m.insert(
        "Wide".to_string(),
        vec![
            EnumVariant { name: "A".to_string(), fields: vec![pair("a", "u8"), pair("b", "i64"), pair("c", "byte")] },
            EnumVariant { name: "B".to_string(), fields: vec![pair("p", "str")] },
        ],
    );
    m
}

fn indirect(abi: &ValueAbi) -> (String, Vec<String>) {
    match abi {
        ValueAbi::Indirect { type_label, fields } => (type_label.clone(), fields.clone()),
        other => panic!("not indirect: {:?}", other),
    }
}

#[test]
fn abi_of_scalars_and_references() {
    let (s, e) = (structs(), enums());
    assert!(matches!(abi_for_annotation(None, &s, &e), Ok(ValueAbi::Scalar)));
    assert!(matches!(abi_for_annotation(Some(" Int "), &s, &e), Ok(ValueAbi::Scalar)));
    assert!(matches!(abi_for_annotation(Some("&mut i64"), &s, &e), Ok(ValueAbi::Reference { mutable: true })));
    assert!(matches!(abi_for_annotation(Some("& bool"), &s, &e), Ok(ValueAbi::Reference { mutable: false })));
    assert_eq!(
        abi_for_annotation(Some("&str"), &s, &e).unwrap_err(),
        "reference ABI currently requires a scalar-cell pointee; got 'str'"
    );
    assert!(matches!(abi_for_annotation(Some("()"), &s, &e), Ok(ValueAbi::Unit)));
}

#[test]
fn abi_of_aggregates() {
    let (s, e) = (structs(), enums());
    let string_abi = abi_for_annotation(Some("string"), &s, &e).unwrap();
    assert_eq!(indirect(&string_abi), ("String".to_string(), vec!["@data".to_string(), "len".to_string()]));
    let bytes_abi = abi_for_annotation(Some("BYTES"), &s, &e).unwrap();
    assert_eq!(indirect(&bytes_abi).0, "Bytes");
    let point = abi_for_annotation(Some("Point"), &s, &e).unwrap();
    assert_eq!(indirect(&point), ("Point".to_string(), vec!["x".to_string(), "y".to_string()]));
    assert_eq!(
        abi_for_annotation(Some("Bad"), &s, &e).unwrap_err(),
        "aggregate ABI for struct 'Bad' requires scalar-cell fields in v0.1.4; field type 'String' is not qualified"
    );
    let opt = abi_for_annotation(Some("Opt"), &s, &e).unwrap();
    assert_eq!(indirect(&opt), ("Opt".to_string(), vec!["@tag".to_string(), "@payload0".to_string()]));
    assert_eq!(
        abi_for_annotation(Some("Wide"), &s, &e).unwrap_err(),
        "aggregate ABI for enum 'Wide' requires scalar-cell payloads in v0.1.4; payload type 'str' is not qualified"
    );
    assert_eq!(
        abi_for_annotation(Some(" Foo "), &s, &e).unwrap_err(),
        "type 'Foo' does not yet have a qualified v0.1.4 native value ABI"
    );
}

#[test]
fn aggregate_fields_in_storage_order() {
    let s = structs();
    let tuple = vec![pair("0", "int"), pair("1", "int")];
    assert_eq!(ordered_aggregate_fields("Tuple", &tuple, &s).unwrap(), vec!["0".to_string(), "1".to_string()]);
    let shuffled = vec![pair("1", "int"), pair("0", "int")];
    assert_eq!(
        ordered_aggregate_fields("Array", &shuffled, &s).unwrap_err(),
        "tuple MIR fields must be canonical 0..N order, got [\"1\", \"0\"]"
    );
    let point = vec![pair("y", "bool"), pair("x", "int")];
    assert_eq!(ordered_aggregate_fields("Point", &point, &s).unwrap(), vec!["x".to_string(), "y".to_string()]);
    let missing = vec![pair("x", "int"), pair("z", "int")];
    assert_eq!(
        ordered_aggregate_fields("Point", &missing, &s).unwrap_err(),
        "aggregate initializer for 'Point' is missing field 'y'"
    );
    let short = vec![pair("x", "int")];
    assert_eq!(
        ordered_aggregate_fields("Point", &short, &s).unwrap_err(),
        "aggregate initializer for 'Point' has 1 fields, expected 2"
    );
    assert_eq!(
        ordered_aggregate_fields("Nope", &short, &s).unwrap_err(),
        "aggregate initializer references unknown struct 'Nope'"
    );
    assert_eq!(
        ordered_aggregate_fields("Bad", &short, &s).unwrap_err(),
        "struct 'Bad' field type 'string' does not yet have a qualified v0.1.4 scalar-cell layout"
    );
}

#[test]
fn enum_initializers_are_checked_against_the_declaration() {
    let e = enums();
    assert_eq!(validate_enum_initializer("Opt", "Some", 1, &vec![pair("v", "1")], &e).unwrap(), 1);
    assert_eq!(validate_enum_initializer("Opt", "None", 0, &vec![], &e).unwrap(), 1);
    assert_eq!(
        validate_enum_initializer("Opt", "Some", 2, &vec![], &e).unwrap_err(),
        "enum initializer for 'Opt' uses invalid tag 2; 2 variants declared"
    );
    assert_eq!(
        validate_enum_initializer("Opt", "Some", 0, &vec![], &e).unwrap_err(),
        "enum initializer for 'Opt' tag 0 names 'Some' but declaration names 'None'"
    );
    assert_eq!(
        validate_enum_initializer("Opt", "Some", 1, &vec![], &e).unwrap_err(),
        "enum initializer for 'Opt::Some' has 0 payload fields, expected 1"
    );
    assert_eq!(
        validate_enum_initializer("Opt", "Some", 1, &vec![pair("w", "1")], &e).unwrap_err(),
        "enum initializer for 'Opt::Some' payload field 'w' is out of declaration order; expected 'v'"
    );
    assert_eq!(
        validate_enum_initializer("Wide", "B", 1, &vec![pair("p", "x")], &e).unwrap_err(),
        "enum 'Wide::B' payload type 'str' does not yet have a qualified v0.1.4 scalar-cell layout"
    );
    assert_eq!(
        validate_enum_initializer("Gone", "A", 0, &vec![], &e).unwrap_err(),
        "enum initializer references unknown enum 'Gone'"
    );
}

#[test]
fn local_aggregates_take_consecutive_cells() {
    let mut next: u32 = 5;
    let fields = vec!["a".to_string(), "b".to_string(), "c".to_string()];
    let storage = allocate_local_aggregate(&mut next, "T".to_string(), fields, "f").unwrap();
    assert_eq!(next, 8);
    assert_eq!(storage.base_slot, Some(7));
    assert_eq!(storage.indirect_slot, None);
    assert_eq!(storage.offset_of("b"), Some(8));
    assert_eq!(storage.offset_of("z"), None);
    let empty = allocate_local_aggregate(&mut next, "U".to_string(), vec![], "f").unwrap();
    assert_eq!(empty.base_slot, None);
    assert_eq!(next, 8);
    let mut full: u32 = u32::MAX - 1;
    let err = allocate_local_aggregate(&mut full, "T".to_string(), vec!["a".into(), "b".into(), "c".into()], "f");
    assert_eq!(err.unwrap_err(), "function 'f': local slot space overflow");
    assert_eq!(full, u32::MAX - 1);
}

#[test]
fn constant_slices_are_bounds_checked() {
    assert_eq!(constant_slice_window(1, 3, false, 5).unwrap(), (1, 3));
    assert_eq!(constant_slice_window(1, 3, true, 5).unwrap(), (1, 4));
    assert_eq!(constant_slice_window(-1, 3, false, 5).unwrap_err(), "slice range bounds must be non-negative");
    assert_eq!(constant_slice_window(2, 9, false, 5).unwrap_err(), "slice range 2..9 out of bounds for length 5");
    assert_eq!(constant_slice_window(3, 1, false, 5).unwrap_err(), "slice range 3..1 out of bounds for length 5");
}

#[test]
fn scalar_slots_are_looked_up_by_name() {
    let mut slots: StrMap<u32> = StrMap::new();
    slots.insert("x".to_string(), 3);
    assert_eq!(slot_of(&slots, "x", "f").unwrap(), 3);
    assert_eq!(slot_of(&slots, "y", "f").unwrap_err(), "function 'f': MIR references unknown scalar value 'y'");
}
