//! Tool descriptors: the static metadata through which an agent learns a
//! tool's name, purpose, and calling convention.

use vstd::prelude::*;

verus! {

/// The primitive type of one schema field.
#[derive(Debug, Clone, Copy, PartialEq, Eq, Structural)]
pub enum FieldType {
    Number,
    Text,
}

/// One field of a tool's parameter schema.
#[derive(Debug, Clone, PartialEq, Eq)]
pub struct FieldSpec {
    pub name: String,
    pub ty: FieldType,
    pub description: String,
}

/// A JSON-schema-shaped parameter object: named, typed, described
/// fields, and the names of the fields that are required.
#[derive(Debug, Clone, PartialEq, Eq)]
pub struct ToolSchema {
    pub properties: Vec<FieldSpec>,
    pub required: Vec<String>,
}

/// A tool's static descriptor: its registered name, a human-readable
/// description, and its parameter schema.
#[derive(Debug, Clone, PartialEq, Eq)]
pub struct ToolDefinition {
    pub name: String,
    pub description: String,
    pub parameters: ToolSchema,
}

/// Well-formedness of a schema: field names are unique, and every
/// required name names one of the declared fields.
pub open spec fn schema_wf(s: ToolSchema) -> bool {
    (forall|i: int, j: int|
        0 <= i < j < s.properties@.len() ==> (#[trigger] s.properties@[i].name@) != (
        #[trigger] s.properties@[j].name@)) && (forall|i: int|
        0 <= i < s.required@.len() ==> exists|j: int|
            0 <= j < s.properties@.len() && (#[trigger] s.required@[i]@) == s.properties@[j].name@)
}

} // verus!
