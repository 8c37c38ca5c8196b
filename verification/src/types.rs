//! The schema-facing value/type model.
//!
//! The codec itself only ever needs a flat view of this tree: a numeric
//! field ID plus a wire-kind tag per field. The richer structure here (former
//! names, optionality, type parameters) belongs to the schema layer and is
//! carried around, never interpreted, by the codec.

use vstd::prelude::*;

verus! {

/// A type as the schema sees it: what it is now, and what it used to be.
#[derive(Debug)]
pub struct Type {
    pub current: TypePrimitive,
    pub formerly: Vec<TypePrimitive>,
}

/// The wire-kind tags a field's type can resolve to.
#[derive(Debug)]
pub enum TypePrimitive {
    // scalars
    Bool,
    String,
    Int,
    Int8,
    Int16,
    Int32,
    Int64,
    Float,
    Float32,
    Float64,
    // iterable collections
    Array(Box<Type>),
    Dict(Box<Type>, Box<Type>),
    SetOf(Box<Type>),
    // custom types
    Custom(CustomTypeInfo),
    // records
    Record(RecordInfo),
}

/// Whether a field must be present in every instance.
#[derive(Debug, PartialEq, Eq, Structural)]
pub enum Optionality {
    Required,
    Optional,
}

/// A type parameter's name.
#[derive(Debug, PartialEq)]
pub enum TypeParam {
    TypeParam(String),
}

/// A type's name.
#[derive(Debug, PartialEq)]
pub enum TypeName {
    TypeName(String),
}

/// A record type: its fields and its naming history.
#[derive(Debug)]
pub struct RecordInfo {
    pub name: Option<TypeName>,
    pub former_names: Vec<TypeName>,
    pub fields: Vec<Field>,
    pub params: Vec<TypeParam>,
}

/// A custom (variant) type: its variants and its naming history.
#[derive(Debug)]
pub struct CustomTypeInfo {
    pub name: TypeName,
    pub former_names: Vec<TypeName>,
    pub variants: Vec<Variant>,
    pub params: Vec<TypeParam>,
}

/// A field's stable numeric identifier. 64 bits wide for alignment; in JSON
/// it is represented by its minified name anyway.
pub type FieldId = u64;

/// One field of a record.
#[derive(Debug)]
pub struct Field {
    pub optionality: Optionality,
    pub name: String,
    pub tipe: Type,
    pub field_id: FieldId,
    pub fallback: bool,
    pub former_names: Vec<String>,
}

/// A variant's stable numeric identifier. 64 bits wide for alignment; in
/// JSON it is represented as a string anyway.
pub type VariantId = u64;

/// One variant of a custom type.
#[derive(Debug)]
pub struct Variant {
    pub optionality: Optionality,
    pub name: String,
    pub tipe: Type,
    pub variant_id: VariantId,
    pub former_names: Vec<String>,
    pub contents: Vec<Type>,
}

} // verus!
