//! The exported interface of a program: its public functions, structs and
//! enums with their signatures, as compared across versions by `abi_check`.

use vstd::prelude::*;

verus! {

#[derive(Debug, Clone)]
pub struct ExportedParam {
    pub name: String,
    pub type_label: String,
}

#[derive(Debug, Clone)]
pub struct ExportedFunction {
    pub name: String,
    pub type_params: Vec<String>,
    pub params: Vec<ExportedParam>,
    pub return_type: Option<String>,
    pub effects: Vec<String>,
}

#[derive(Debug, Clone)]
pub struct ExportedField {
    pub name: String,
    pub type_label: String,
}

#[derive(Debug, Clone)]
pub struct ExportedStruct {
    pub name: String,
    pub is_linear: bool,
    pub fields: Vec<ExportedField>,
}

#[derive(Debug, Clone)]
pub struct ExportedVariant {
    pub name: String,
    pub fields: Vec<ExportedField>,
}

#[derive(Debug, Clone)]
pub struct ExportedEnum {
    pub name: String,
    pub is_sealed: bool,
    pub variants: Vec<ExportedVariant>,
}

/// One exported item.
#[derive(Debug, Clone)]
pub enum ExportedItem {
    Function(ExportedFunction),
    Struct(ExportedStruct),
    Enum(ExportedEnum),
}

/// The exported items of a program, in declaration order.
#[derive(Debug, Clone)]
pub struct ExportDocument {
    pub items: Vec<ExportedItem>,
}

} // verus!
