use hiroz::codegen::types::{ArrayType, Field, FieldType as WrittenType, ParsedMessage};
use hiroz::dynamic::loader::{
    find_msg_file, is_primitive_field_type, load_schema_from_ament, msg_file_candidates,
    qualify_references, split_ros_type_name, LoadStep, Loading,
};
use hiroz::dynamic::registry::{get_schema, has_schema, register_schema, SchemaRegistry};
use hiroz::dynamic::schema::{
    builtin_type, convert_base_type, convert_field_type, parsed_message_to_schema,
    qualified_name, DynamicError, FieldType, MessageSchema,
};
use std::collections::HashMap;
use std::sync::Arc;

fn field(name: &str, base: &str, package: Option<&str>, array: ArrayType) -> Field {
    Field {
        name: name.to_string(),
        field_type: WrittenType {
            base_type: base.to_string(),
            package: package.map(|p| p.to_string()),
            array,
            string_bound: None,
        },
    }
}

fn single(name: &str, base: &str) -> Field {
    field(name, base, None, ArrayType::Single)
}

fn definition(package: &str, name: &str, fields: Vec<Field>) -> ParsedMessage {
    ParsedMessage {
        package: package.to_string(),
        name: name.to_string(),
        path: format!("/opt/share/{}/msg/{}.msg", package, name),
        fields,
    }
}

fn schema(package: &str, name: &str) -> Arc<MessageSchema> {
    Arc::new(MessageSchema {
        full_name: format!("{}/msg/{}", package, name),
        package: package.to_string(),
        name: name.to_string(),
        fields: vec![],
        type_hash: None,
    })
}

fn nothing(_package: &str, _name: &str) -> Option<Arc<MessageSchema>> {
    None
}

// The registry

#[test]
fn a_registered_schema_is_found() {
    let mut registry = SchemaRegistry::new();
    assert!(registry.is_empty());
    assert_eq!(registry.len(), 0);
    let twist = schema("geometry_msgs", "Twist");
    let back = registry.register(twist.clone());
    assert!(Arc::ptr_eq(&back, &twist));
    assert!(!registry.is_empty());
    assert_eq!(registry.len(), 1);
    assert!(registry.contains("geometry_msgs/msg/Twist"));
    assert!(!registry.contains("geometry_msgs/msg/Point"));
    assert!(Arc::ptr_eq(&registry.get("geometry_msgs/msg/Twist").unwrap(), &twist));
    assert!(registry.get("geometry_msgs/msg/Point").is_none());
}

#[test]
fn a_schema_takes_the_place_of_another_of_its_name() {
    let mut registry = SchemaRegistry::default();
    registry.register(schema("a", "T"));
    let second = schema("a", "T");
    registry.register(second.clone());
    assert_eq!(registry.len(), 1);
    assert!(Arc::ptr_eq(&registry.get("a/msg/T").unwrap(), &second));
}

#[test]
fn names_are_listed_once_each() {
    let mut registry = SchemaRegistry::new();
    registry.register(schema("b", "T"));
    registry.register(schema("a", "T"));
    registry.register(schema("b", "T"));
    assert_eq!(registry.type_names(), vec!["a/msg/T", "b/msg/T"]);
    registry.clear();
    assert!(registry.is_empty());
    assert!(registry.type_names().is_empty());
}

#[test]
fn the_shared_registry_may_be_out_of_reach() {
    let mut registry = SchemaRegistry::new();
    let s = register_schema(&mut registry, schema("a", "T"));
    assert!(Arc::ptr_eq(&get_schema(Some(&registry), "a/msg/T").unwrap(), &s));
    assert!(has_schema(Some(&registry), "a/msg/T"));
    assert!(!has_schema(Some(&registry), "a/msg/U"));
    assert!(get_schema(None, "a/msg/T").is_none());
    assert!(!has_schema(None, "a/msg/T"));
}

// Conversion

#[test]
fn primitive_names_have_their_types() {
    let answer = |base: &str| convert_base_type(base, &None, &nothing).unwrap();
    assert!(matches!(answer("bool"), FieldType::Bool));
    assert!(matches!(answer("byte"), FieldType::Int8));
    assert!(matches!(answer("int8"), FieldType::Int8));
    assert!(matches!(answer("int16"), FieldType::Int16));
    assert!(matches!(answer("int32"), FieldType::Int32));
    assert!(matches!(answer("int64"), FieldType::Int64));
    assert!(matches!(answer("char"), FieldType::Uint8));
    assert!(matches!(answer("uint8"), FieldType::Uint8));
    assert!(matches!(answer("uint16"), FieldType::Uint16));
    assert!(matches!(answer("uint32"), FieldType::Uint32));
    assert!(matches!(answer("uint64"), FieldType::Uint64));
    assert!(matches!(answer("float32"), FieldType::Float32));
    assert!(matches!(answer("float64"), FieldType::Float64));
    assert!(matches!(answer("string"), FieldType::String));
    assert!(matches!(answer("string<=12"), FieldType::BoundedString(12)));
}

#[test]
fn a_bound_that_is_no_number_makes_a_reference() {
    assert!(builtin_type("string<=").is_none());
    assert!(builtin_type("string<=x").is_none());
    assert!(builtin_type("string<=99999999999999999999999999").is_none());
    assert!(matches!(builtin_type("string<=+7"), Some(FieldType::BoundedString(7))));
    match convert_base_type("string<=x", &None, &nothing) {
        Err(DynamicError::InvalidTypeName(n)) => assert_eq!(n, "string<=x"),
        _ => panic!("a reference without a package"),
    }
}

#[test]
fn references_are_resolved() {
    let point = schema("geometry_msgs", "Point");
    let known = point.clone();
    let resolver = move |package: &str, name: &str| {
        if package == "geometry_msgs" && name == "Point" {
            Some(known.clone())
        } else {
            None
        }
    };
    let package = Some("geometry_msgs".to_string());
    match convert_base_type("Point", &package, &resolver) {
        Ok(FieldType::Message(s)) => assert!(Arc::ptr_eq(&s, &point)),
        _ => panic!("the reference has a schema"),
    }
    match convert_base_type("Pose", &package, &resolver) {
        Err(DynamicError::SchemaNotFound(n)) => assert_eq!(n, "geometry_msgs/msg/Pose"),
        _ => panic!("the reference has no schema"),
    }
    match convert_base_type("Pose", &None, &resolver) {
        Err(DynamicError::InvalidTypeName(n)) => assert_eq!(n, "Pose"),
        _ => panic!("the reference has no package"),
    }
}

#[test]
fn arrays_wrap_their_base() {
    let fixed = field("a", "int32", None, ArrayType::Fixed(3));
    match convert_field_type(&fixed, &nothing).unwrap() {
        FieldType::Array(base, 3) => assert!(matches!(*base, FieldType::Int32)),
        _ => panic!("an array"),
    }
    let bounded = field("a", "int32", None, ArrayType::Bounded(4));
    match convert_field_type(&bounded, &nothing).unwrap() {
        FieldType::BoundedSequence(base, 4) => assert!(matches!(*base, FieldType::Int32)),
        _ => panic!("a bounded sequence"),
    }
    let unbounded = field("a", "int32", None, ArrayType::Unbounded);
    match convert_field_type(&unbounded, &nothing).unwrap() {
        FieldType::Sequence(base) => assert!(matches!(*base, FieldType::Int32)),
        _ => panic!("a sequence"),
    }
}

#[test]
fn a_definition_becomes_a_schema() {
    let msg = definition(
        "my_msgs",
        "Status",
        vec![single("robot_id", "string"), single("is_active", "bool")],
    );
    let s = parsed_message_to_schema(&msg, &nothing).unwrap();
    assert_eq!(s.full_name, "my_msgs/msg/Status");
    assert_eq!(s.package, "my_msgs");
    assert_eq!(s.name, "Status");
    assert!(s.type_hash.is_none());
    assert_eq!(s.fields.len(), 2);
    assert_eq!(s.fields[0].name, "robot_id");
    assert!(matches!(s.fields[0].field_type, FieldType::String));
    assert_eq!(s.fields[1].name, "is_active");
    assert!(matches!(s.fields[1].field_type, FieldType::Bool));
}

#[test]
fn the_first_field_without_a_type_is_the_error() {
    let msg = definition(
        "my_msgs",
        "Status",
        vec![
            single("ok", "bool"),
            field("first", "Point", Some("geometry_msgs"), ArrayType::Single),
            single("second", "Pose"),
        ],
    );
    match parsed_message_to_schema(&msg, &nothing) {
        Err(DynamicError::SchemaNotFound(n)) => assert_eq!(n, "geometry_msgs/msg/Point"),
        _ => panic!("the first reference has no schema"),
    }
}

// Names and places

#[test]
fn names_are_split() {
    let pair = |p: &str, n: &str| Some((p.to_string(), n.to_string()));
    assert_eq!(split_ros_type_name("geometry_msgs/msg/Twist"), pair("geometry_msgs", "Twist"));
    assert_eq!(split_ros_type_name("geometry_msgs/Twist"), pair("geometry_msgs", "Twist"));
    assert_eq!(split_ros_type_name("/geometry_msgs//Twist/"), pair("geometry_msgs", "Twist"));
    assert_eq!(split_ros_type_name("Twist"), None);
    assert_eq!(split_ros_type_name("a/b/c/d"), None);
    assert_eq!(split_ros_type_name(""), None);
    assert_eq!(qualified_name("geometry_msgs", "Twist"), "geometry_msgs/msg/Twist");
}

#[test]
fn wide_strings_are_primitive_names() {
    assert!(is_primitive_field_type("wstring"));
    assert!(is_primitive_field_type("float64"));
    assert!(!is_primitive_field_type("Point"));
    assert!(!is_primitive_field_type("string<=5"));
}

#[test]
fn definitions_are_looked_for_below_each_prefix() {
    let places = msg_file_candidates("/opt/ros::/home/me", "std_msgs", "Header");
    assert_eq!(
        places,
        vec![
            vec!["/opt/ros", "share", "std_msgs", "msg", "Header.msg"],
            vec!["/home/me", "share", "std_msgs", "msg", "Header.msg"],
        ]
    );
    assert!(msg_file_candidates("", "std_msgs", "Header").is_empty());
    assert_eq!(find_msg_file(&vec![false, true, true]), Some(1));
    assert_eq!(find_msg_file(&vec![false, false]), None);
}

#[test]
fn bare_references_are_to_the_same_package() {
    let mut bound = single("label", "string");
    bound.field_type.string_bound = Some(5);
    let msg = definition(
        "my_msgs",
        "Status",
        vec![
            single("pose", "Pose"),
            single("n", "int32"),
            field("p", "Point", Some("geometry_msgs"), ArrayType::Unbounded),
            bound,
        ],
    );
    let q = qualify_references(msg, "my_msgs");
    assert_eq!(q.fields[0].field_type.package.as_deref(), Some("my_msgs"));
    assert_eq!(q.fields[1].field_type.package, None);
    assert_eq!(q.fields[2].field_type.package.as_deref(), Some("geometry_msgs"));
    assert_eq!(q.fields[2].field_type.array, ArrayType::Unbounded);
    assert_eq!(q.fields[3].field_type.package, None);
    assert_eq!(q.fields[3].field_type.string_bound, Some(5));
}

// Loading

/// Loads a schema from definitions, and counts how many are read.
fn load(
    registry: &mut SchemaRegistry,
    defs: &HashMap<String, Vec<(String, String, Option<String>)>>,
    name: &str,
) -> (Option<Arc<MessageSchema>>, Vec<String>) {
    let mut read = vec![];
    let (mut loading, mut step): (Loading, LoadStep) = load_schema_from_ament(registry, name);
    loop {
        match step {
            LoadStep::Done(s) => return (s, read),
            LoadStep::Read { package, name } => {
                let full = qualified_name(&package, &name);
                read.push(full.clone());
                let found = defs.get(&full).map(|fields| {
                    let fields = fields
                        .iter()
                        .map(|(n, b, p)| field(n, b, p.as_deref(), ArrayType::Single))
                        .collect();
                    definition(&package, &name, fields)
                });
                let next = loading.supply(registry, found);
                loading = next.0;
                step = next.1;
            }
        }
    }
}

fn written(
    fields: &[(&str, &str, Option<&str>)],
) -> Vec<(String, String, Option<String>)> {
    fields
        .iter()
        .map(|(n, b, p)| (n.to_string(), b.to_string(), p.map(|p| p.to_string())))
        .collect()
}

fn geometry() -> HashMap<String, Vec<(String, String, Option<String>)>> {
    let mut defs = HashMap::new();
    defs.insert(
        "geometry_msgs/msg/PoseStamped".to_string(),
        written(&[("header", "Header", Some("std_msgs")), ("pose", "Pose", None)]),
    );
    defs.insert(
        "geometry_msgs/msg/Pose".to_string(),
        written(&[("position", "Point", None), ("origin", "Point", None)]),
    );
    defs.insert(
        "geometry_msgs/msg/Point".to_string(),
        written(&[("x", "float64", None), ("y", "float64", None)]),
    );
    defs.insert("std_msgs/msg/Header".to_string(), written(&[("frame_id", "string", None)]));
    defs.insert(
        "my_msgs/msg/Broken".to_string(),
        written(&[("p", "Point", Some("geometry_msgs")), ("q", "Missing", None)]),
    );
    defs.insert("my_msgs/msg/Wide".to_string(), written(&[("w", "wstring", None)]));
    defs
}

#[test]
fn nested_definitions_are_loaded() {
    let defs = geometry();
    let mut registry = SchemaRegistry::new();
    let (found, read) = load(&mut registry, &defs, "geometry_msgs/msg/PoseStamped");
    let s = found.unwrap();
    assert_eq!(
        read,
        vec![
            "geometry_msgs/msg/PoseStamped",
            "std_msgs/msg/Header",
            "geometry_msgs/msg/Pose",
            "geometry_msgs/msg/Point",
        ]
    );
    assert_eq!(s.full_name, "geometry_msgs/msg/PoseStamped");
    let pose = match &s.fields[1].field_type {
        FieldType::Message(p) => p.clone(),
        _ => panic!("a message"),
    };
    assert_eq!(pose.full_name, "geometry_msgs/msg/Pose");
    let (position, origin) = match (&pose.fields[0].field_type, &pose.fields[1].field_type) {
        (FieldType::Message(a), FieldType::Message(b)) => (a.clone(), b.clone()),
        _ => panic!("messages"),
    };
    assert!(Arc::ptr_eq(&position, &origin));
    assert_eq!(position.fields.len(), 2);
    assert!(matches!(position.fields[0].field_type, FieldType::Float64));
    assert_eq!(registry.len(), 4);
    assert!(Arc::ptr_eq(&registry.get("geometry_msgs/msg/PoseStamped").unwrap(), &s));
}

#[test]
fn a_loaded_schema_is_not_read_again() {
    let defs = geometry();
    let mut registry = SchemaRegistry::new();
    let (first, _) = load(&mut registry, &defs, "geometry_msgs/Pose");
    let first = first.unwrap();
    assert_eq!(first.full_name, "geometry_msgs/msg/Pose");
    for name in ["geometry_msgs/msg/Pose", "geometry_msgs/Pose"] {
        let (second, read) = load(&mut registry, &HashMap::new(), name);
        assert!(read.is_empty());
        assert!(Arc::ptr_eq(&first, &second.unwrap()));
    }
    assert!(Arc::ptr_eq(&first, &get_schema(Some(&registry), "geometry_msgs/msg/Pose").unwrap()));
}

#[test]
fn a_missing_definition_ends_the_loading() {
    let defs = geometry();
    let mut registry = SchemaRegistry::new();
    let (found, read) = load(&mut registry, &defs, "my_msgs/msg/Broken");
    assert!(found.is_none());
    assert_eq!(
        read,
        vec!["my_msgs/msg/Broken", "geometry_msgs/msg/Point", "my_msgs/msg/Missing"]
    );
    assert_eq!(registry.type_names(), vec!["geometry_msgs/msg/Point"]);
}

#[test]
fn a_type_that_cannot_be_had_ends_the_loading() {
    let defs = geometry();
    let mut registry = SchemaRegistry::new();
    let (found, read) = load(&mut registry, &defs, "my_msgs/msg/Wide");
    assert!(found.is_none());
    assert_eq!(read, vec!["my_msgs/msg/Wide"]);
    assert!(registry.is_empty());
}

#[test]
fn a_name_without_a_package_is_not_loaded() {
    let defs = geometry();
    let mut registry = SchemaRegistry::new();
    let (found, read) = load(&mut registry, &defs, "Pose");
    assert!(found.is_none());
    assert!(read.is_empty());
}
