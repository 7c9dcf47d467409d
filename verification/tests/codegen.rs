use hiroz::codegen::config::{GeneratorConfig, MessageGenerator};
use hiroz::codegen::discover::{
    bundled_assets_dir, discover_bundled_packages, discover_user_packages,
    generate_user_messages, judge_entry, msg_path_entries, DiscoverError, EntryVerdict, Probe,
};
use hiroz::codegen::emit::{
    finished, is_all_of, names_module, write_generated, GenerateError, Generated, PackageText,
};
use hiroz::codegen::filter::{filter_notice, verdict, Verdict};
use hiroz::codegen::group::{all_messages, group_packages};
use hiroz::codegen::plan::{
    standard_packages, Discovered, Output, ResolveStep, Resolved, StepInput, StepOutput,
};
use hiroz::codegen::types::{
    ArrayType, Field, FieldType, ParsedAction, ParsedMessage, ParsedService, ResolvedAction,
    ResolvedMessage, ResolvedService,
};
use hiroz::names::NameMap;
use std::path::{Path, PathBuf};

fn parsed(package: &str, name: &str) -> ParsedMessage {
    ParsedMessage {
        package: package.to_string(),
        name: name.to_string(),
        path: format!("/ws/{}/msg/{}.msg", package, name),
        fields: vec![],
    }
}

fn with_field(mut msg: ParsedMessage, base: &str) -> ParsedMessage {
    msg.fields.push(Field {
        name: "f".to_string(),
        field_type: FieldType {
            base_type: base.to_string(),
            package: None,
            array: ArrayType::Single,
            string_bound: None,
        },
    });
    msg
}

fn service(package: &str, name: &str) -> ParsedService {
    ParsedService { package: package.to_string(), name: name.to_string() }
}

fn resolved(package: &str, name: &str) -> ResolvedMessage {
    ResolvedMessage { parsed: parsed(package, name) }
}

fn resolved_service(package: &str, name: &str) -> ResolvedService {
    ResolvedService {
        parsed: service(package, name),
        request: resolved(package, &format!("{}Request", name)),
        response: resolved(package, &format!("{}Response", name)),
    }
}

fn resolved_action(package: &str, name: &str, feedback: bool) -> ResolvedAction {
    ResolvedAction {
        parsed: ParsedAction { package: package.to_string(), name: name.to_string() },
        goal: resolved(package, &format!("{}Goal", name)),
        result: Some(resolved(package, &format!("{}Result", name))),
        feedback: if feedback {
            Some(resolved(package, &format!("{}Feedback", name)))
        } else {
            None
        },
    }
}

fn paths(names: &[&str]) -> Vec<PathBuf> {
    names.iter().map(PathBuf::from).collect()
}

fn set(names: &[&str]) -> NameMap<()> {
    let mut m = NameMap::new();
    for n in names {
        m.insert(n.to_string(), ());
    }
    m
}

fn config() -> GeneratorConfig {
    GeneratorConfig {
        generate_cdr: true,
        generate_protobuf: false,
        generate_type_info: true,
        is_humble: false,
        output_dir: PathBuf::from("/out"),
        external_crate: Some("hiroz_msgs".to_string()),
        local_packages: set(&["my_msgs"]),
        json_out: None,
        protobuf_excluded_packages: NameMap::new(),
    }
}

fn names(messages: &[ParsedMessage]) -> Vec<String> {
    messages.iter().map(|m| m.name.clone()).collect()
}

// Filtering

#[test]
fn each_reason_to_leave_a_message_out() {
    assert_eq!(verdict(&parsed("std_msgs", "Header")), Verdict::Keep);
    assert_eq!(verdict(&parsed("actionlib_msgs", "GoalID")), Verdict::Deprecated);
    assert_eq!(verdict(&parsed("a", "Add_Request")), Verdict::ServiceFile);
    assert_eq!(verdict(&parsed("a", "Add_Response")), Verdict::ServiceFile);
    let mut in_srv = parsed("a", "Odd");
    in_srv.path = "/ws/a/srv/Odd.msg".to_string();
    assert_eq!(verdict(&in_srv), Verdict::ServiceDirectory);
    assert_eq!(verdict(&with_field(parsed("a", "W"), "wstring")), Verdict::WideString);
    assert_eq!(verdict(&with_field(parsed("a", "W"), "wstring<=5")), Verdict::WideString);
    assert_eq!(verdict(&with_field(parsed("a", "S"), "string")), Verdict::Keep);
}

#[test]
fn notices_name_what_is_left_out() {
    assert_eq!(filter_notice(&parsed("std_msgs", "Header")), None);
    assert_eq!(
        filter_notice(&parsed("actionlib_msgs", "GoalID")).unwrap(),
        "cargo:info=Filtered deprecated actionlib_msgs: actionlib_msgs/GoalID"
    );
    assert_eq!(
        filter_notice(&parsed("a", "Add_Request")).unwrap(),
        "cargo:info=Filtered service msg file: a/Add_Request"
    );
    let mut in_srv = parsed("a", "Odd");
    in_srv.path = "/ws/a/srv/Odd.msg".to_string();
    assert_eq!(
        filter_notice(&in_srv).unwrap(),
        "cargo:info=Filtered srv directory message: a/Odd"
    );
    assert_eq!(
        filter_notice(&with_field(parsed("a", "W"), "wstring")).unwrap(),
        "cargo:warning=Skipping message a/W due to wstring field (unsupported)"
    );
}

#[test]
fn filtering_keeps_the_order() {
    let kept = MessageGenerator::filter_messages(vec![
        parsed("b", "Two"),
        parsed("actionlib_msgs", "GoalID"),
        parsed("a", "One"),
        parsed("a", "Add_Request"),
    ]);
    assert_eq!(names(&kept), vec!["Two", "One"]);
    let again = MessageGenerator::filter_messages(kept);
    assert_eq!(names(&again), vec!["Two", "One"]);
    let services = MessageGenerator::filter_services(vec![
        service("actionlib_msgs", "Old"),
        service("a", "Add"),
    ]);
    assert_eq!(services.len(), 1);
    assert_eq!(services[0].name, "Add");
}

// Planning

#[test]
fn a_plan_without_dependencies() {
    let g = MessageGenerator::new(config());
    let plan = g.generate_from_msg_files(Discovered {
        messages: vec![parsed("my_msgs", "Status"), parsed("my_msgs", "X_Request")],
        services: vec![service("other", "Do")],
        actions: vec![],
    });
    assert_eq!(names(&plan.user.messages), vec!["Status"]);
    assert_eq!(plan.user_message_names.key_list(), vec!["my_msgs/Status"]);
    assert_eq!(
        plan.steps,
        vec![ResolveStep::UserMessages, ResolveStep::UserServices, ResolveStep::UserActions]
    );
    assert_eq!(plan.external_packages.len(), 11);
    assert!(!plan.is_humble);
}

#[test]
fn loaded_packages_are_not_external() {
    let mut c = config();
    c.local_packages = set(&["my_msgs", "nav_msgs"]);
    let g = MessageGenerator::new(c);
    let plan = g.generate_from_msg_files_with_deps(
        Discovered {
            messages: vec![parsed("my_msgs", "Status")],
            services: vec![],
            actions: vec![],
        },
        Discovered {
            messages: vec![parsed("std_msgs", "Header")],
            services: vec![],
            actions: vec![ParsedAction {
                package: "test_msgs".to_string(),
                name: "Fib".to_string(),
            }],
        },
    );
    assert!(!plan.external_packages.contains("std_msgs"));
    assert!(!plan.external_packages.contains("nav_msgs"));
    assert!(!plan.external_packages.contains("test_msgs"));
    assert!(plan.external_packages.contains("geometry_msgs"));
    assert_eq!(plan.external_packages.len(), 8);
    assert_eq!(
        plan.steps,
        vec![
            ResolveStep::DependencyMessages,
            ResolveStep::DependencyActions,
            ResolveStep::UserMessages,
            ResolveStep::UserServices,
            ResolveStep::UserActions,
        ]
    );
    let selected =
        plan.select_resolved(vec![resolved("std_msgs", "Header"), resolved("my_msgs", "Status")]);
    assert_eq!(selected.len(), 1);
    assert_eq!(selected[0].parsed.name, "Status");
}

#[test]
fn a_dependency_of_the_same_package_name_is_not_emitted() {
    let g = MessageGenerator::new(config());
    let plan = g.generate_from_msg_files_with_deps(
        Discovered { messages: vec![parsed("foo_msgs", "A")], services: vec![], actions: vec![] },
        Discovered { messages: vec![parsed("foo_msgs", "B")], services: vec![], actions: vec![] },
    );
    let selected = plan.select_resolved(vec![resolved("foo_msgs", "B"), resolved("foo_msgs", "A")]);
    assert_eq!(selected.len(), 1);
    assert_eq!(selected[0].parsed.name, "A");
    match generate("pub struct", "", selected, vec![], vec![]) {
        Some(Ok(made)) => {
            assert!(made.text.contains("pub struct A"));
            assert!(!made.text.contains("pub struct B"));
        }
        _ => panic!("the code is in order"),
    }
}

#[test]
fn each_step_resolves_its_own_definitions() {
    let g = MessageGenerator::new(config());
    let mut plan = g.generate_from_msg_files_with_deps(
        Discovered {
            messages: vec![parsed("u", "UM")],
            services: vec![service("u", "US")],
            actions: vec![ParsedAction { package: "u".to_string(), name: "UA".to_string() }],
        },
        Discovered {
            messages: vec![parsed("d", "DM")],
            services: vec![service("d", "DS")],
            actions: vec![ParsedAction { package: "d".to_string(), name: "DA".to_string() }],
        },
    );
    let mut resolved_now = Resolved::none();
    let mut seen = vec![];
    for step in plan.steps.clone() {
        let output = match plan.take_input(step) {
            StepInput::Messages(v) => {
                seen.extend(v.iter().map(|m| m.name.clone()));
                let mut all = vec![resolved("d", "DM")];
                all.extend(v.iter().map(|m| resolved(&m.package, &m.name)));
                StepOutput::Messages(all)
            }
            StepInput::Services(v) => {
                seen.extend(v.iter().map(|s| s.name.clone()));
                StepOutput::Services(
                    v.iter().map(|s| resolved_service(&s.package, &s.name)).collect(),
                )
            }
            StepInput::Actions(v) => {
                seen.extend(v.iter().map(|a| a.name.clone()));
                StepOutput::Actions(
                    v.iter().map(|a| resolved_action(&a.package, &a.name, true)).collect(),
                )
            }
        };
        plan.keep_output(step, output, &mut resolved_now);
    }
    assert_eq!(seen, vec!["DM", "DS", "DA", "UM", "US", "UA"]);
    assert!(plan.user.messages.is_empty() && plan.deps.actions.is_empty());
    assert_eq!(resolved_now.messages.len(), 1);
    assert_eq!(resolved_now.messages[0].parsed.name, "UM");
    assert_eq!(resolved_now.services.len(), 1);
    assert_eq!(resolved_now.services[0].parsed.name, "US");
    assert_eq!(resolved_now.actions.len(), 1);
    assert_eq!(resolved_now.actions[0].parsed.name, "UA");
}

#[test]
fn a_standard_package_that_is_not_local_stays_external() {
    let g = MessageGenerator::new(config());
    let own = g.generate_from_msg_files(Discovered {
        messages: vec![parsed("sensor_msgs", "Image")],
        services: vec![],
        actions: vec![],
    });
    assert!(own.external_packages.contains("sensor_msgs"));
    assert_eq!(own.external_packages.len(), 11);
}

#[test]
fn nothing_is_external_without_a_crate_for_it() {
    let mut c = config();
    c.external_crate = None;
    let plan = MessageGenerator::new(c).generate_from_msg_files(Discovered::none());
    assert_eq!(plan.external_packages.len(), 0);
    assert_eq!(standard_packages().len(), 11);
}

#[test]
fn outputs_are_those_asked_for() {
    let mut c = config();
    c.json_out = Some(PathBuf::from("/out/defs.json"));
    c.generate_protobuf = true;
    let g = MessageGenerator::new(c);
    let all = g.outputs(true);
    assert_eq!(all.len(), 3);
    assert!(matches!(&all[0], Output::Json(p) if p.as_path() == Path::new("/out/defs.json")));
    assert!(matches!(all[1], Output::Cdr));
    assert!(matches!(all[2], Output::Protobuf));
    assert_eq!(g.outputs(false).len(), 2);
}

#[test]
fn excluded_packages_have_no_protobuf() {
    let mut c = config();
    c.protobuf_excluded_packages = set(&["secret_msgs"]);
    let g = MessageGenerator::new(c);
    let left = g.protobuf_messages(vec![resolved("secret_msgs", "A"), resolved("my_msgs", "B")]);
    assert_eq!(left.len(), 1);
    assert_eq!(left[0].parsed.name, "B");
}

#[test]
fn each_step_says_what_failed() {
    assert_eq!(
        ResolveStep::DependencyMessages.context(),
        "Failed to resolve dependency message hashes"
    );
    assert_eq!(
        ResolveStep::DependencyServices.context(),
        "Failed to resolve dependency service hashes"
    );
    assert_eq!(
        ResolveStep::DependencyActions.context(),
        "Failed to resolve dependency action hashes"
    );
    assert_eq!(ResolveStep::UserMessages.context(), "Failed to resolve message dependencies");
    assert_eq!(ResolveStep::UserServices.context(), "Failed to resolve service dependencies");
    assert_eq!(ResolveStep::UserActions.context(), "Failed to resolve action dependencies");
}

// Grouping

#[test]
fn definitions_are_grouped_by_package() {
    let messages = vec![resolved("b", "M1"), resolved("a", "M2"), resolved("b", "M3")];
    let services = vec![resolved_service("b", "Srv")];
    let actions = vec![resolved_action("c", "Act", false), resolved_action("b", "Go", true)];
    let packages = group_packages(&messages, &services, &actions);
    assert_eq!(packages.key_list(), vec!["a", "b", "c"]);
    let b = packages.get("b").unwrap();
    let in_b: Vec<&str> = b.messages.iter().map(|m| m.parsed.name.as_str()).collect();
    assert_eq!(
        in_b,
        vec!["M1", "M3", "SrvRequest", "SrvResponse", "GoGoal", "GoResult", "GoFeedback"]
    );
    assert_eq!(b.services.len(), 1);
    assert_eq!(b.actions.len(), 1);
    let c = packages.get("c").unwrap();
    let in_c: Vec<&str> = c.messages.iter().map(|m| m.parsed.name.as_str()).collect();
    assert_eq!(in_c, vec!["ActGoal", "ActResult"]);
    let all: Vec<&str> =
        all_messages(&packages).iter().map(|m| m.parsed.name.as_str()).collect();
    assert_eq!(
        all,
        vec![
            "M2", "M1", "M3", "SrvRequest", "SrvResponse", "GoGoal", "GoResult", "GoFeedback",
            "ActGoal", "ActResult",
        ]
    );
}

// Emission

#[test]
fn the_generated_text() {
    let parts = vec![
        PackageText {
            name: "a".to_string(),
            messages: vec!["pub struct M;".to_string()],
            services: vec![],
            actions: vec![],
        },
        PackageText {
            name: "b".to_string(),
            messages: vec![],
            services: vec!["pub struct S;".to_string()],
            actions: vec!["pub struct A;".to_string()],
        },
    ];
    assert_eq!(
        write_generated(&parts),
        "#[allow(clippy::approx_constant, clippy::manual_is_multiple_of, clippy::let_and_return)]\n\
         pub mod ros {\n\
         pub mod a {\npub struct M;\n}\n\
         pub mod b {\npub mod srv {\npub struct S;\n}\npub mod action {\npub struct A;\n}\n}\n\
         }\n"
    );
}

fn generate(
    message_text: &str,
    fails: &str,
    messages: Vec<ResolvedMessage>,
    services: Vec<ResolvedService>,
    actions: Vec<ResolvedAction>,
) -> Option<Result<Generated, GenerateError<String>>> {
    let g = MessageGenerator::new(config());
    g.generate_if_named(
        &messages,
        &services,
        &actions,
        &|all: &Vec<&ResolvedMessage>| all.len(),
        &|c: &GeneratorConfig, m: &ResolvedMessage, plain: &usize| {
            if m.parsed.name == fails {
                return Err(format!("no {}", fails));
            }
            let external = c.external_crate.clone().unwrap_or_default();
            Ok(format!(
                "{} {} {{ pub all: [u8; {}], pub p: ::{}::ros::geometry_msgs::Point }}",
                message_text, m.parsed.name, plain, external
            ))
        },
        &|s: &ResolvedService| {
            if s.parsed.name == fails {
                Err(format!("no {}", fails))
            } else {
                Ok(format!("pub struct {};", s.parsed.name))
            }
        },
        &|a: &ResolvedAction| {
            if a.parsed.name == fails {
                Err(format!("no {}", fails))
            } else {
                Ok(format!("pub struct {};", a.parsed.name))
            }
        },
    )
}

#[test]
fn generated_code_is_parsed() {
    let made = generate(
        "pub struct",
        "",
        vec![resolved("my_test_msgs", "TestStatus")],
        vec![resolved_service("my_test_msgs", "MoveTo")],
        vec![],
    );
    match made {
        Some(Ok(g)) => {
            assert_eq!(g.count, 2);
            let file = syn::parse_str::<syn::File>(&g.text).unwrap();
            assert_eq!(file.items.len(), 1);
            assert!(g.text.contains("pub struct TestStatus"));
            assert!(g.text.contains("pub struct MoveToRequest"));
            assert!(g.text.contains("::hiroz_msgs::ros::geometry_msgs::Point"));
            assert!(g.text.contains("pub mod my_test_msgs"));
            assert!(g.text.contains("pub mod srv"));
            assert!(!g.text.contains("pub mod action"));
            assert!(g.text.contains("[u8; 3]"));
        }
        _ => panic!("the code is in order"),
    }
}

#[test]
fn code_that_does_not_parse_is_refused() {
    let made = generate("struct struct", "", vec![resolved("a", "M")], vec![], vec![]);
    match made {
        Some(Err(e)) => {
            assert!(matches!(e, GenerateError::Parse(_)));
            assert_eq!(e.context(), "Failed to parse generated code");
        }
        _ => panic!("the code is no Rust"),
    }
}

#[test]
fn the_first_implementation_that_fails_ends_it() {
    let messages = || vec![resolved("b", "M1"), resolved("a", "M2")];
    let services = || vec![resolved_service("a", "Srv")];
    let actions = || vec![resolved_action("a", "Act", true)];
    match generate("pub struct", "M1", messages(), services(), actions()) {
        Some(Err(GenerateError::Message(e))) => assert_eq!(e, "no M1"),
        _ => panic!("a message fails"),
    }
    match generate("pub struct", "Srv", messages(), services(), actions()) {
        Some(Err(e)) => {
            assert_eq!(e.context(), "Failed to generate service implementations");
            assert!(matches!(e, GenerateError::Service(s) if s == "no Srv"));
        }
        _ => panic!("a service fails"),
    }
    match generate("pub struct", "Act", messages(), services(), actions()) {
        Some(Err(e)) => {
            assert_eq!(e.context(), "Failed to generate action implementations");
            assert!(matches!(e, GenerateError::Action(s) if s == "no Act"));
        }
        _ => panic!("an action fails"),
    }
    match generate("pub struct", "ActGoal", messages(), services(), actions()) {
        Some(Err(e)) => assert_eq!(e.context(), "Failed to generate message implementations"),
        _ => panic!("the goal of an action fails"),
    }
}

#[test]
fn packages_must_name_modules() {
    assert!(names_module("std_msgs"));
    assert!(names_module("type"));
    assert!(names_module("r#type"));
    assert!(!names_module("my-msgs"));
    assert!(!names_module(" std_msgs"));
    assert!(!names_module("3d_msgs"));
    assert!(!names_module(""));
    assert!(generate("pub struct", "", vec![resolved("my-msgs", "M")], vec![], vec![]).is_none());
}

#[test]
fn names_are_met_in_turn() {
    let messages = || vec![resolved("my-msgs", "M"), resolved("a", "N"), resolved("z", "Z")];
    match generate("pub struct", "N", messages(), vec![], vec![]) {
        Some(Err(GenerateError::Message(e))) => assert_eq!(e, "no N"),
        _ => panic!("a package before the bad name fails"),
    }
    assert!(generate("pub struct", "", messages(), vec![], vec![]).is_none());
    assert!(generate("pub struct", "Z", messages(), vec![], vec![]).is_none());
    assert!(generate("pub struct", "M", messages(), vec![], vec![]).is_none());
}

#[test]
fn what_was_parsed_decides() {
    let done: Result<Generated, GenerateError<String>> = finished("x".to_string(), 3, Ok(()));
    match done {
        Ok(g) => assert_eq!((g.text.as_str(), g.count), ("x", 3)),
        Err(_) => panic!("the text parsed"),
    }
    let cause = syn::parse_str::<syn::File>("fn").err().unwrap();
    let failed: Result<Generated, GenerateError<String>> =
        finished("x".to_string(), 3, Err(cause));
    assert!(matches!(failed, Err(GenerateError::Parse(_))));
    assert!(is_all_of(&Some("a".to_string()), "a"));
    assert!(!is_all_of(&Some("a".to_string()), " a"));
    assert!(!is_all_of(&None, "a"));
}

#[test]
fn nothing_to_generate_is_an_empty_module() {
    match generate("pub struct", "", vec![], vec![], vec![]) {
        Some(Ok(g)) => {
            assert_eq!(g.count, 0);
            assert!(g.text.ends_with("pub mod ros {\n}\n"));
        }
        _ => panic!("an empty module parses"),
    }
}

// Discovery

fn probe(exists: bool, msg: bool) -> Probe {
    Probe { exists, is_dir: exists, msg, srv: false, action: false }
}

#[test]
fn entries_are_trimmed() {
    assert_eq!(msg_path_entries(" /a : /b::  :/c"), vec!["/a", "/b", "/c"]);
    assert!(msg_path_entries("").is_empty());
}

#[test]
fn test_discover_user_packages_missing_env() {
    let result = discover_user_packages(None, &vec![]);
    assert!(result.is_err());
    assert!(
        result.unwrap_err().describe().contains("HIROZ_MSG_PATH environment variable not set")
    );
}

#[test]
fn test_discover_user_packages_no_valid_packages() {
    let result = discover_user_packages(Some("/tmp/empty_pkg"), &vec![probe(true, false)]);
    assert!(result.is_err());
    assert!(result.unwrap_err().describe().contains("No valid message packages found"));
}

#[test]
fn packages_are_found_in_order() {
    let probes = vec![probe(true, true), probe(false, false), probe(true, false), probe(true, true)];
    assert_eq!(
        discover_user_packages(Some("/a:/b:/c:/d"), &probes).unwrap(),
        vec!["/a", "/d"]
    );
    assert_eq!(discover_user_packages(Some(""), &vec![]), Err(DiscoverError::NoPackages));
    assert_eq!(judge_entry(probe(false, true)), EntryVerdict::Missing);
    assert_eq!(judge_entry(probe(true, false)), EntryVerdict::NoInterfaces);
    assert_eq!(
        judge_entry(Probe { exists: true, is_dir: false, msg: false, srv: true, action: false }),
        EntryVerdict::Package
    );
}

#[test]
fn bundled_packages_are_directories_with_definitions() {
    assert_eq!(bundled_assets_dir("/crate", true), vec!["/crate", "assets", "humble"]);
    assert_eq!(bundled_assets_dir("/crate", false), vec!["/crate", "assets", "jazzy"]);
    let paths = || paths(&["/x", "/y", "/z"]);
    let probes = vec![
        Probe { exists: true, is_dir: true, msg: false, srv: false, action: true },
        Probe { exists: true, is_dir: false, msg: true, srv: false, action: false },
        Probe { exists: true, is_dir: true, msg: false, srv: false, action: false },
    ];
    assert_eq!(discover_bundled_packages(true, paths(), &probes), vec![PathBuf::from("/x")]);
    assert!(discover_bundled_packages(false, paths(), &probes).is_empty());
}

#[test]
fn user_packages_hide_bundled_ones() {
    let user = generate_user_messages(
        PathBuf::from("/out"),
        true,
        &vec![Some("my_msgs".to_string()), None, Some("std_msgs".to_string())],
        paths(&["/b/std_msgs", "/b/odd", "/b/nav_msgs"]),
        &vec![Some("std_msgs".to_string()), None, Some("nav_msgs".to_string())],
    );
    assert_eq!(user.dep_packages, paths(&["/b/odd", "/b/nav_msgs"]));
    let c = user.generator.config();
    assert!(c.generate_cdr && !c.generate_protobuf && c.generate_type_info && c.is_humble);
    assert_eq!(c.output_dir, PathBuf::from("/out"));
    assert_eq!(c.external_crate.as_deref(), Some("hiroz_msgs"));
    assert_eq!(c.local_packages.key_list(), vec!["my_msgs", "std_msgs"]);
    assert_eq!(c.json_out, None);
    assert_eq!(c.protobuf_excluded_packages.len(), 0);
}
