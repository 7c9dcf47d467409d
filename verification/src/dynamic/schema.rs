//! Schemas of messages, and how they come from parsed definitions.

use crate::codegen::types::{ArrayType, Field, ParsedMessage};
use crate::text;
use crate::text::{chars_of, parse_number, slice_text, starts_with, text_eq};
use std::sync::Arc;
use vstd::prelude::*;
use vstd::string::*;

verus! {

/// The type of a schema field.
pub enum FieldType {
    Bool,
    Int8,
    Int16,
    Int32,
    Int64,
    Uint8,
    Uint16,
    Uint32,
    Uint64,
    Float32,
    Float64,
    String,
    BoundedString(usize),
    Message(Arc<MessageSchema>),
    Array(Box<FieldType>, usize),
    Sequence(Box<FieldType>),
    BoundedSequence(Box<FieldType>, usize),
}

/// A field of a schema.
pub struct FieldSchema {
    pub name: String,
    pub field_type: FieldType,
}

/// The schema of a message type.
pub struct MessageSchema {
    /// The full name, such as `geometry_msgs/msg/Twist`.
    pub full_name: String,
    pub package: String,
    pub name: String,
    pub fields: Vec<FieldSchema>,
    pub type_hash: Option<String>,
}

/// Why a definition has no schema.
#[derive(Debug)]
pub enum DynamicError {
    /// A message type is referred to without its package.
    InvalidTypeName(String),
    /// A message type is referred to that has no schema.
    SchemaNotFound(String),
}

/// The full name of a message type.
pub open spec fn qualified(package: Seq<char>, name: Seq<char>) -> Seq<char> {
    package + "/msg/"@ + name
}

/// Writes the full name of a message type.
pub fn qualified_name(package: &str, name: &str) -> (s: String)
    ensures
        s@ == qualified(package@, name@),
{
    text::join3(package, "/msg/", name)
}

/// The type that a primitive name stands for.
pub open spec fn primitive(base: Seq<char>) -> Option<FieldType> {
    if base == "bool"@ {
        Some(FieldType::Bool)
    } else if base == "int8"@ || base == "byte"@ {
        Some(FieldType::Int8)
    } else if base == "int16"@ {
        Some(FieldType::Int16)
    } else if base == "int32"@ {
        Some(FieldType::Int32)
    } else if base == "int64"@ {
        Some(FieldType::Int64)
    } else if base == "uint8"@ || base == "char"@ {
        Some(FieldType::Uint8)
    } else if base == "uint16"@ {
        Some(FieldType::Uint16)
    } else if base == "uint32"@ {
        Some(FieldType::Uint32)
    } else if base == "uint64"@ {
        Some(FieldType::Uint64)
    } else if base == "float32"@ {
        Some(FieldType::Float32)
    } else if base == "float64"@ {
        Some(FieldType::Float64)
    } else if base == "string"@ {
        Some(FieldType::String)
    } else {
        None
    }
}

/// The type that a name stands for by itself: a primitive, or a string with a
/// bound that fits. Every other name refers to a message type.
pub open spec fn known_type(base: Seq<char>) -> Option<FieldType> {
    if primitive(base) is Some {
        primitive(base)
    } else if text::begins_with(base, "string<="@) {
        match text::number(base.skip("string<="@.len() as int)) {
            Some(n) => if n <= usize::MAX {
                Some(FieldType::BoundedString(n as usize))
            } else {
                None
            },
            None => None,
        }
    } else {
        None
    }
}

/// The type that a primitive name stands for.
pub fn primitive_type(base: &str) -> (r: Option<FieldType>)
    ensures
        r == primitive(base@),
{
    if text_eq(base, "bool") {
        Some(FieldType::Bool)
    } else if text_eq(base, "int8") || text_eq(base, "byte") {
        Some(FieldType::Int8)
    } else if text_eq(base, "int16") {
        Some(FieldType::Int16)
    } else if text_eq(base, "int32") {
        Some(FieldType::Int32)
    } else if text_eq(base, "int64") {
        Some(FieldType::Int64)
    } else if text_eq(base, "uint8") || text_eq(base, "char") {
        Some(FieldType::Uint8)
    } else if text_eq(base, "uint16") {
        Some(FieldType::Uint16)
    } else if text_eq(base, "uint32") {
        Some(FieldType::Uint32)
    } else if text_eq(base, "uint64") {
        Some(FieldType::Uint64)
    } else if text_eq(base, "float32") {
        Some(FieldType::Float32)
    } else if text_eq(base, "float64") {
        Some(FieldType::Float64)
    } else if text_eq(base, "string") {
        Some(FieldType::String)
    } else {
        None
    }
}

/// The type that a name stands for by itself.
pub fn builtin_type(base: &str) -> (r: Option<FieldType>)
    ensures
        r == known_type(base@),
{
    match primitive_type(base) {
        Some(t) => {
            return Some(t);
        },
        None => {},
    }
    let prefix = "string<=";
    if starts_with(base, prefix) {
        let chars = chars_of(base);
        let from: usize = chars_of(prefix).len();
        let rest = slice_text(&chars, from, chars.len());
        assert(rest@ =~= base@.skip(prefix@.len() as int));
        match parse_number(rest.as_str()) {
            Some(n) => Some(FieldType::BoundedString(n)),
            None => None,
        }
    } else {
        None
    }
}

/// The type of a reference to the message `name` of `package`, for which
/// `schema` was found.
pub open spec fn is_reference(
    schema: Option<Arc<MessageSchema>>,
    package: Seq<char>,
    name: Seq<char>,
    r: Result<FieldType, DynamicError>,
) -> bool {
    match schema {
        Some(s) => r == Ok::<FieldType, DynamicError>(FieldType::Message(s)),
        None => r matches Err(DynamicError::SchemaNotFound(t)) && t@ == qualified(package, name),
    }
}

/// The type of a reference to a message, from what was found for it.
pub fn reference_type(schema: Option<Arc<MessageSchema>>, package: &str, name: &str) -> (r: Result<
    FieldType,
    DynamicError,
>)
    ensures
        is_reference(schema, package@, name@, r),
{
    match schema {
        Some(s) => Ok(FieldType::Message(s)),
        None => Err(DynamicError::SchemaNotFound(qualified_name(package, name))),
    }
}

/// A way to resolve references: which schemas may be given for a package and a
/// name.
pub type Answers = spec_fn(Seq<char>, Seq<char>, Option<Arc<MessageSchema>>) -> bool;

/// The answers that `resolver` may give.
pub open spec fn answers_of<F: Fn(&str, &str) -> Option<Arc<MessageSchema>>>(
    resolver: F,
) -> Answers {
    |package: Seq<char>, name: Seq<char>, schema: Option<Arc<MessageSchema>>|
        exists|p: &str, n: &str|
            p@ == package && n@ == name && #[trigger] call_ensures(resolver, (p, n), schema)
}

/// `r` is the type of the name `base`, written with the package `package`,
/// where references are resolved by `answers`.
pub open spec fn is_base_type(
    base: Seq<char>,
    package: Option<String>,
    answers: Answers,
    r: Result<FieldType, DynamicError>,
) -> bool {
    match (known_type(base), package) {
        (Some(t), _) => r == Ok::<FieldType, DynamicError>(t),
        (None, None) => r matches Err(DynamicError::InvalidTypeName(t)) && t@ == base,
        (None, Some(p)) => exists|schema: Option<Arc<MessageSchema>>| #[trigger]
            answers(p@, base, schema) && is_reference(schema, p@, base, r),
    }
}

/// Converts the name of a type.
pub fn convert_base_type<F: Fn(&str, &str) -> Option<Arc<MessageSchema>>>(
    base_type: &str,
    package: &Option<String>,
    resolver: &F,
) -> (r: Result<FieldType, DynamicError>)
    requires
        forall|p: &str, n: &str| #[trigger] call_requires(*resolver, (p, n)),
    ensures
        is_base_type(base_type@, *package, answers_of(*resolver), r),
{
    match builtin_type(base_type) {
        Some(t) => {
            return Ok(t);
        },
        None => {},
    }
    match package {
        None => Err(DynamicError::InvalidTypeName(base_type.to_owned())),
        Some(pkg) => {
            let schema = resolver(pkg.as_str(), base_type);
            proof {
                assert(answers_of(*resolver)(pkg@, base_type@, schema));
            }
            reference_type(schema, pkg.as_str(), base_type)
        },
    }
}

/// The type of many values, or of one, of the type `base`.
pub open spec fn arrayed(base: FieldType, array: ArrayType) -> FieldType {
    match array {
        ArrayType::Single => base,
        ArrayType::Fixed(n) => FieldType::Array(Box::new(base), n),
        ArrayType::Bounded(n) => FieldType::BoundedSequence(Box::new(base), n),
        ArrayType::Unbounded => FieldType::Sequence(Box::new(base)),
    }
}

/// Makes the type of many values, or of one, of the type `base`.
pub fn array_of(base: FieldType, array: ArrayType) -> (t: FieldType)
    ensures
        t == arrayed(base, array),
{
    match array {
        ArrayType::Single => base,
        ArrayType::Fixed(n) => FieldType::Array(Box::new(base), n),
        ArrayType::Bounded(n) => FieldType::BoundedSequence(Box::new(base), n),
        ArrayType::Unbounded => FieldType::Sequence(Box::new(base)),
    }
}

/// `r` is the type of `field`, where references are resolved by `answers`.
pub open spec fn is_field_type(
    field: Field,
    answers: Answers,
    r: Result<FieldType, DynamicError>,
) -> bool {
    exists|base: Result<FieldType, DynamicError>|
        {
            &&& #[trigger] is_base_type(
                field.field_type.base_type@,
                field.field_type.package,
                answers,
                base,
            )
            &&& match base {
                Ok(t) => r == Ok::<FieldType, DynamicError>(arrayed(t, field.field_type.array)),
                Err(e) => r == Err::<FieldType, DynamicError>(e),
            }
        }
}

/// Converts the type of a field.
pub fn convert_field_type<F: Fn(&str, &str) -> Option<Arc<MessageSchema>>>(
    field: &Field,
    resolver: &F,
) -> (r: Result<FieldType, DynamicError>)
    requires
        forall|p: &str, n: &str| #[trigger] call_requires(*resolver, (p, n)),
    ensures
        is_field_type(*field, answers_of(*resolver), r),
{
    let base = convert_base_type(
        field.field_type.base_type.as_str(),
        &field.field_type.package,
        resolver,
    );
    let ghost seen = base;
    match base {
        Err(e) => {
            assert(seen == Err::<FieldType, DynamicError>(e));
            Err(e)
        },
        Ok(t) => Ok(array_of(t, field.field_type.array)),
    }
}

/// `field` has a type, where references are resolved by `answers`.
pub open spec fn convertible(field: Field, answers: Answers) -> bool {
    exists|t: Result<FieldType, DynamicError>| t is Ok && #[trigger]
        is_field_type(field, answers, t)
}

/// `r` is the schema of `msg`, or the error of its first field that has none.
pub open spec fn is_schema_of(
    msg: ParsedMessage,
    answers: Answers,
    r: Result<Arc<MessageSchema>, DynamicError>,
) -> bool {
    match r {
        Ok(schema) => {
            &&& schema.full_name@ == qualified(msg.package@, msg.name@)
            &&& schema.package@ == msg.package@
            &&& schema.name@ == msg.name@
            &&& schema.type_hash is None
            &&& schema.fields@.len() == msg.fields@.len()
            &&& forall|i: int|
                #![trigger schema.fields@[i]]
                0 <= i < msg.fields@.len() ==> schema.fields@[i].name@ == msg.fields@[i].name@
                    && is_field_type(msg.fields@[i], answers, Ok(schema.fields@[i].field_type))
        },
        Err(e) => exists|i: int|
            {
                &&& 0 <= i < msg.fields@.len()
                &&& #[trigger] is_field_type(
                    msg.fields@[i],
                    answers,
                    Err::<FieldType, DynamicError>(e),
                )
                &&& forall|j: int| 0 <= j < i ==> #[trigger] convertible(msg.fields@[j], answers)
            },
    }
}

/// Converts a parsed message to a schema. References to other messages are
/// resolved by `resolver`, which is given the package and the name.
pub fn parsed_message_to_schema<F: Fn(&str, &str) -> Option<Arc<MessageSchema>>>(
    msg: &ParsedMessage,
    resolver: &F,
) -> (r: Result<Arc<MessageSchema>, DynamicError>)
    requires
        forall|p: &str, n: &str| #[trigger] call_requires(*resolver, (p, n)),
    ensures
        is_schema_of(*msg, answers_of(*resolver), r),
{
    let ghost answers = answers_of(*resolver);
    let mut fields: Vec<FieldSchema> = Vec::new();
    let mut i: usize = 0;
    while i < msg.fields.len()
        invariant
            i <= msg.fields@.len(),
            fields@.len() == i,
            answers == answers_of(*resolver),
            forall|p: &str, n: &str| #[trigger] call_requires(*resolver, (p, n)),
            forall|j: int| 0 <= j < i ==> #[trigger] convertible(msg.fields@[j], answers),
            forall|j: int|
                #![trigger fields@[j]]
                0 <= j < i ==> fields@[j].name@ == msg.fields@[j].name@ && is_field_type(
                    msg.fields@[j],
                    answers,
                    Ok(fields@[j].field_type),
                ),
        decreases msg.fields@.len() - i,
    {
        match convert_field_type(&msg.fields[i], resolver) {
            Ok(t) => {
                proof {
                    let found = Ok::<FieldType, DynamicError>(t);
                    assert(is_field_type(msg.fields@[i as int], answers, found));
                    assert(convertible(msg.fields@[i as int], answers));
                }
                fields.push(FieldSchema { name: msg.fields[i].name.clone(), field_type: t });
            },
            Err(e) => {
                return Err(e);
            },
        }
        i += 1;
    }
    Ok(
        Arc::new(
            MessageSchema {
                full_name: qualified_name(msg.package.as_str(), msg.name.as_str()),
                package: msg.package.clone(),
                name: msg.name.clone(),
                fields,
                type_hash: None,
            },
        ),
    )
}

} // verus!
