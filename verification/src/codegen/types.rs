//! Parsed and resolved interface definitions.

use vstd::prelude::*;

verus! {

/// Whether a field is one value or many.
#[derive(Clone, Copy, PartialEq, Eq, Structural, Debug)]
pub enum ArrayType {
    Single,
    Fixed(usize),
    Bounded(usize),
    Unbounded,
}

/// The type of a field as it is written in a definition.
pub struct FieldType {
    pub base_type: String,
    pub package: Option<String>,
    pub array: ArrayType,
    pub string_bound: Option<usize>,
}

/// A field of a definition.
pub struct Field {
    pub name: String,
    pub field_type: FieldType,
}

/// A message definition.
pub struct ParsedMessage {
    pub package: String,
    pub name: String,
    /// The file that the definition was read from.
    pub path: String,
    pub fields: Vec<Field>,
}

/// A service definition.
pub struct ParsedService {
    pub package: String,
    pub name: String,
}

/// An action definition.
pub struct ParsedAction {
    pub package: String,
    pub name: String,
}

/// A message definition with its references resolved.
pub struct ResolvedMessage {
    pub parsed: ParsedMessage,
}

/// A service definition with its request and response.
pub struct ResolvedService {
    pub parsed: ParsedService,
    pub request: ResolvedMessage,
    pub response: ResolvedMessage,
}

/// An action definition with its goal and, where it has them, its result and
/// feedback.
pub struct ResolvedAction {
    pub parsed: ParsedAction,
    pub goal: ResolvedMessage,
    pub result: Option<ResolvedMessage>,
    pub feedback: Option<ResolvedMessage>,
}

} // verus!
