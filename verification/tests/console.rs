use hiroz::console::echo::{
    drain, polled, EchoState, EchoStatus, EchoWorker, DISCOVERY_TIMEOUT_MS, MAX_ECHO_LINES,
    POLL_INTERVAL_MS,
};
use hiroz::console::engine::{
    after_load, after_lookup, after_subscribe, is_connected, lookup_topic_type, node_options,
    session_settings, startup_error, topic_changes, Backend, EchoStep, Startup, Topic,
    TopicEvent, TypeInfo,
};
use hiroz::console::logger::{default_filter, init_logger, LogFormat, LogTarget};
use hiroz::console::measure::{
    axis_line, empty_panel_text, label_line, wrap_to_width, write_panel_title, App, Chart,
    EchoBody, EchoPanel, EchoWindow, FocusPane, MeasurementPanel, Tint,
};
use hiroz::dynamic::schema::MessageSchema;
use hiroz::names::NameMap;
use std::collections::VecDeque;
use std::sync::Arc;
use std::time::Instant;

fn set(names: &[&str]) -> NameMap<()> {
    let mut m = NameMap::new();
    for n in names {
        m.insert(n.to_string(), ());
    }
    m
}

fn list(names: &[&str]) -> Vec<String> {
    names.iter().map(|n| n.to_string()).collect()
}

fn app(topics: &[&str]) -> App {
    App {
        measuring_topics: set(topics),
        measure_selected_index: 0,
        focus_pane: FocusPane::List,
        echo_viewport: 0,
        echo_scroll: 0,
        echo_follow: true,
    }
}

fn active(lines: &[&str]) -> EchoState {
    EchoState {
        topic: Some("/chatter".to_string()),
        message_type: Some("std_msgs/msg/String".to_string()),
        lines: list(lines).into_iter().collect::<VecDeque<String>>(),
        status: EchoStatus::Active,
        msg_count: 7,
        last_update: None,
    }
}

fn window(panel: EchoPanel) -> EchoWindow {
    match panel.body {
        EchoBody::Window(w) => w,
        EchoBody::Status(s) => panic!("{}", s),
    }
}

// Wrapping

#[test]
fn lines_are_wrapped() {
    assert_eq!(wrap_to_width("abcdefg", 3), vec!["abc", "def", "g"]);
    assert_eq!(wrap_to_width("abcdef", 3), vec!["abc", "def"]);
    assert_eq!(wrap_to_width("abc", 3), vec!["abc"]);
    assert_eq!(wrap_to_width("", 3), vec![""]);
    assert_eq!(wrap_to_width("abc", 0), vec!["abc"]);
    assert_eq!(wrap_to_width("äöüß", 3), vec!["äöü", "ß"]);
    assert_eq!(wrap_to_width("abcdefg", 3).concat(), "abcdefg");
}

// The measured topics

#[test]
fn measured_topics_are_sorted() {
    assert_eq!(app(&["/b", "/a", "/c"]).get_sorted_measuring_topics(), vec!["/a", "/b", "/c"]);
    assert!(app(&[]).get_sorted_measuring_topics().is_empty());
}

#[test]
fn rows_leave_room_for_the_rate() {
    let mut a = app(&["/long_topic", "/b"]);
    a.measure_selected_index = 1;
    let cut = |s: &str, n: usize| s.chars().take(n).collect::<String>();
    let rows = a.render_measure_list_items(12, &vec![None, Some("10.0".to_string())], &cut);
    assert_eq!(rows.len(), 2);
    assert_eq!(rows[0].name, "/b");
    assert_eq!(rows[0].rate, "");
    assert!(!rows[0].selected);
    assert_eq!(rows[1].rate, " 10.0 Hz");
    assert_eq!(rows[1].name, "/l");
    assert!(rows[1].selected);
    let narrow = a.render_measure_list_items(3, &vec![None, Some("10.0".to_string())], &cut);
    assert_eq!(narrow[1].name, "");
    assert!(app(&[]).render_measure_list_items(12, &vec![], &cut).is_empty());
}

#[test]
fn the_panel_follows_the_selection() {
    let mut metrics: NameMap<u64> = NameMap::new();
    metrics.insert("/a".to_string(), 1);
    assert!(matches!(app(&[]).render_measurement_panel(&metrics), MeasurementPanel::Empty));
    let mut a = app(&["/b", "/a"]);
    match a.render_measurement_panel(&metrics) {
        MeasurementPanel::Charts(t) => assert_eq!(t, "/a"),
        _ => panic!("there are measurements"),
    }
    a.measure_selected_index = 1;
    match a.render_measurement_panel(&metrics) {
        MeasurementPanel::Waiting(t) => assert_eq!(t, "/b"),
        _ => panic!("there are no measurements"),
    }
    a.measure_selected_index = 2;
    assert!(matches!(a.render_measurement_panel(&metrics), MeasurementPanel::Blank));
    assert!(empty_panel_text().starts_with("No topics being monitored.\n\nGo to Topics tab"));
    assert!(empty_panel_text().ends_with("\n4 - Jump to this Measure tab"));
    assert_eq!(write_panel_title("/a"), " /a ");
}

// The echo panel

#[test]
fn the_echo_panel_says_how_the_echo_stands() {
    let mut a = app(&["/chatter"]);
    let mut st = EchoState::default();
    let word = |a: &mut App, st: &EchoState| match a.render_echo_panel(st, 40, 10).body {
        EchoBody::Status(s) => s,
        EchoBody::Window(_) => panic!("no messages come in"),
    };
    assert!(word(&mut a, &st).starts_with("Select a topic (j/k) to echo its messages.\n\n"));
    st.reset_for(Some("/chatter".to_string()), EchoStatus::Discovering);
    assert_eq!(word(&mut a, &st), "/chatter\n\nDiscovering message schema...");
    st.status = EchoStatus::NoData;
    assert_eq!(word(&mut a, &st), "\n\nWaiting for messages...");
    st.message_type = Some("std_msgs/msg/String".to_string());
    assert_eq!(word(&mut a, &st), "std_msgs/msg/String\n\nWaiting for messages...");
    st.status = EchoStatus::Error("gone".to_string());
    assert_eq!(
        word(&mut a, &st),
        "Unable to echo this topic:\n  gone\n\nNo type description service and no local .msg \
         definition ($AMENT_PREFIX_PATH) for this type."
    );
    assert_eq!(a.render_echo_panel(&st, 40, 10).border, Tint::Red);
    assert_eq!(a.echo_viewport, 8);
}

#[test]
fn the_newest_rows_are_followed() {
    let mut a = app(&["/chatter"]);
    let st = active(&["one", "two", "three", "four"]);
    let w = window(a.render_echo_panel(&st, 40, 4));
    assert_eq!(w.rows, vec!["three", "four"]);
    assert_eq!(w.title, " Echo: /chatter [4/4 msgs:7 live] ");
    assert_eq!(w.scrollbar, Some((2, 2)));
    assert_eq!(a.echo_scroll, 2);
    assert!(a.echo_follow);
}

#[test]
fn scrolled_rows_stay_until_the_end() {
    let mut a = app(&["/chatter"]);
    a.focus_pane = FocusPane::Detail;
    a.echo_follow = false;
    a.echo_scroll = 1;
    let st = active(&["one", "two", "three", "four"]);
    let panel = a.render_echo_panel(&st, 40, 4);
    assert_eq!(panel.border, Tint::Cyan);
    let w = window(panel);
    assert_eq!(w.rows, vec!["two", "three"]);
    assert_eq!(w.title, " Echo: /chatter [3/4 msgs:7 scroll] ");
    assert_eq!(w.scrollbar, Some((2, 1)));
    a.echo_scroll = 99;
    let end = window(a.render_echo_panel(&st, 40, 4));
    assert_eq!(end.rows, vec!["three", "four"]);
    assert!(a.echo_follow);
    assert_eq!(a.echo_scroll, 2);
}

#[test]
fn narrow_panels_wrap() {
    let mut a = app(&["/chatter"]);
    let st = active(&["abcdef"]);
    let w = window(a.render_echo_panel(&st, 4, 10));
    assert_eq!(w.rows, vec!["ab", "cd", "ef"]);
    assert_eq!(w.scrollbar, None);
    let thin = window(a.render_echo_panel(&st, 0, 10));
    assert_eq!(thin.rows, vec!["a", "b", "c", "d", "e", "f"]);
    assert_eq!(a.render_echo_panel(&st, 4, 10).border, Tint::DarkGray);
    let flat = window(a.render_echo_panel(&st, 4, 1));
    assert!(flat.rows.is_empty());
    assert_eq!(flat.scrollbar, Some((3, 3)));
}

// Charts

#[test]
fn charts_are_scaled_by_their_greatest_value() {
    let a = app(&[]);
    assert!(matches!(a.render_sparkline_with_axes(&vec![], "Rate (msg/s)"), Chart::Waiting));
    match a.render_sparkline_with_axes(&vec![3, 9, 4], "Rate (msg/s)") {
        Chart::Values { max, scale } => assert_eq!((max, scale), (9, 1)),
        Chart::Waiting => panic!("there are values"),
    }
    match a.render_sparkline_with_axes(&vec![0, 0], "Bandwidth (KB/s)") {
        Chart::Values { max, scale } => assert_eq!((max, scale), (1, 10)),
        Chart::Waiting => panic!("there are values"),
    }
}

#[test]
fn axes_have_ticks() {
    let seconds: Vec<usize> = vec![0, 7, 15, 22, 30];
    assert_eq!(axis_line(7, &seconds), "└──┴─┴┘");
    assert_eq!(axis_line(0, &vec![]), "└┘");
    let wide: Vec<usize> = (0..59).collect();
    let line = axis_line(61, &wide);
    assert_eq!(line.chars().filter(|c| *c == '┴').count(), 5);
    assert_eq!(label_line(12, 60), " 60s    now");
    assert_eq!(label_line(3, 60), " 60snow");
}

// Buffers

#[test]
fn buffers_keep_the_newest_lines() {
    let mut st = EchoState::default();
    assert_eq!(st.status, EchoStatus::Idle);
    for i in 0..MAX_ECHO_LINES + 3 {
        st.push_line(format!("{}", i));
    }
    assert_eq!(st.lines.len(), MAX_ECHO_LINES);
    assert_eq!(st.lines[0], "3");
    assert_eq!(st.lines[MAX_ECHO_LINES - 1], format!("{}", MAX_ECHO_LINES + 2));
    st.reset_for(Some("/b".to_string()), EchoStatus::Discovering);
    assert!(st.lines.is_empty());
    assert_eq!(st.topic.as_deref(), Some("/b"));
    assert_eq!(st.msg_count, 0);
}

#[test]
fn a_look_brings_the_newest_message() {
    let d = drain(vec![Ok(1), Err("bad".to_string()), Ok(2), Err("worse".to_string())]);
    assert_eq!(d.latest, Some(2));
    assert_eq!(d.received, 2);
    assert_eq!(d.decode_err.as_deref(), Some("worse"));
    let none = drain(Vec::<Result<i32, String>>::new());
    assert_eq!(none.latest, None);
    assert_eq!(none.received, 0);
    assert_eq!(none.decode_err, None);
}

#[test]
fn messages_are_numbered_and_split() {
    let mut states: NameMap<EchoState> = NameMap::new();
    states.insert("/a".to_string(), active(&["old"]));
    states.insert("/b".to_string(), active(&["other"]));
    let now = Instant::now();
    polled(&mut states, "/a", Some("x: 1\ny: 2\n".to_string()), 3, None, now);
    let a = states.get("/a").unwrap();
    assert_eq!(
        a.lines.iter().map(|l| l.as_str()).collect::<Vec<_>>(),
        vec!["old", "──────── #10 ────────", "x: 1", "y: 2"]
    );
    assert_eq!(a.msg_count, 10);
    assert_eq!(a.status, EchoStatus::Active);
    assert_eq!(a.last_update, Some(now));
    assert_eq!(states.get("/b").unwrap().lines.len(), 1);
}

#[test]
fn failures_show_only_without_a_message() {
    let mut states: NameMap<EchoState> = NameMap::new();
    states.insert("/a".to_string(), active(&[]));
    let now = Instant::now();
    polled(&mut states, "/a", None, 0, Some("bad".to_string()), now);
    assert_eq!(states.get("/a").unwrap().status, EchoStatus::Error("bad".to_string()));
    polled(&mut states, "/a", Some("m".to_string()), 1, Some("bad".to_string()), now);
    assert_eq!(states.get("/a").unwrap().status, EchoStatus::Active);
    polled(&mut states, "/a", None, 0, None, now);
    assert_eq!(states.get("/a").unwrap().status, EchoStatus::Active);
    polled(&mut states, "/gone", Some("m".to_string()), 1, None, now);
    assert!(!states.contains("/gone"));
}

// The worker

#[test]
fn the_worker_follows_the_measured_topics() {
    let mut worker: EchoWorker<u32> = EchoWorker::new();
    let mut states: NameMap<EchoState> = NameMap::new();
    let first = worker.topics_changed(&mut states, &list(&["/b", "/a", "/b"]));
    assert_eq!(first, vec!["/b", "/a"]);
    assert_eq!(states.key_list(), vec!["/a", "/b"]);
    assert_eq!(states.get("/a").unwrap().status, EchoStatus::Discovering);
    assert_eq!(states.get("/a").unwrap().topic.as_deref(), Some("/a"));
    assert_eq!(worker.pending.key_list(), vec!["/a", "/b"]);

    worker.discovered(&mut states, "/a".to_string(), Ok((5, Some("T".to_string()))));
    assert_eq!(states.get("/a").unwrap().status, EchoStatus::NoData);
    assert_eq!(states.get("/a").unwrap().message_type.as_deref(), Some("T"));
    assert_eq!(worker.current.get("/a"), Some(&5));
    assert_eq!(worker.pending.key_list(), vec!["/b"]);

    worker.discovered(&mut states, "/b".to_string(), Err("no type".to_string()));
    assert_eq!(states.get("/b").unwrap().status, EchoStatus::Error("no type".to_string()));
    assert!(!worker.current.contains("/b"));

    let again = worker.topics_changed(&mut states, &list(&["/a", "/b", "/c"]));
    assert_eq!(again, vec!["/b", "/c"]);
    assert_eq!(states.get("/b").unwrap().status, EchoStatus::Error("no type".to_string()));

    let less = worker.topics_changed(&mut states, &list(&["/c"]));
    assert!(less.is_empty());
    assert_eq!(states.key_list(), vec!["/c"]);
    assert!(!worker.current.contains("/a"));
    assert_eq!(worker.pending.key_list(), vec!["/c"]);

    worker.discovered(&mut states, "/a".to_string(), Ok((6, None)));
    assert!(!worker.current.contains("/a"));
    assert!(!states.contains("/a"));
    assert_eq!(DISCOVERY_TIMEOUT_MS, 3000);
    assert_eq!(POLL_INTERVAL_MS, 100);
}

#[test]
fn a_found_type_does_not_hide_messages() {
    let mut worker: EchoWorker<u32> = EchoWorker::new();
    let mut states: NameMap<EchoState> = NameMap::new();
    worker.topics_changed(&mut states, &list(&["/a"]));
    states.insert("/a".to_string(), active(&["x"]));
    worker.discovered(&mut states, "/a".to_string(), Ok((1, None)));
    assert_eq!(states.get("/a").unwrap().status, EchoStatus::Active);
    assert_eq!(states.get("/a").unwrap().message_type, None);
}

// The engine

#[test]
fn sessions_are_clients_of_the_router() {
    let settings = session_settings("tcp/127.0.0.1:7447");
    let pairs: Vec<(&str, &str)> =
        settings.iter().map(|s| (s.key.as_str(), s.value.as_str())).collect();
    assert_eq!(
        pairs,
        vec![
            ("mode", "\"client\""),
            ("connect/endpoints", "[\"tcp/127.0.0.1:7447\"]"),
            ("scouting/multicast/enabled", "false"),
        ]
    );
    assert_eq!(Backend::default(), Backend::RmwZenoh);
    assert_eq!(Backend::RmwZenoh.liveliness_pattern(42), "@ros2_lv/42/**");
    assert_eq!(Backend::Ros2Dds.liveliness_pattern(42), "@/*/@ros2_lv/**");
    let node = node_options();
    assert_eq!(node.name, "hiroz_console");
    assert!(node.type_description_service);
    assert!(is_connected(1));
    assert!(!is_connected(0));
    assert_eq!(
        startup_error(Startup::Session, "refused"),
        "Failed to initialize Zenoh session: refused"
    );
    assert_eq!(startup_error(Startup::Context, "x"), "Failed to create ROS context: x");
}

fn info(name: &str) -> Option<TypeInfo> {
    Some(TypeInfo { name: name.to_string(), hash: format!("RIHS01_{}", name) })
}

#[test]
fn publishers_come_before_subscriptions() {
    let found = lookup_topic_type(&vec![None, info("p"), info("q")], &vec![info("s")]).unwrap();
    assert_eq!(found.name, "p");
    assert_eq!(found.hash, "RIHS01_p");
    assert_eq!(lookup_topic_type(&vec![None], &vec![None, info("s")]).unwrap().name, "s");
    assert!(lookup_topic_type(&vec![], &vec![]).is_none());
}

#[test]
fn installed_definitions_come_before_discovery() {
    assert!(matches!(after_lookup(None), EchoStep::Discover));
    match after_lookup(info("T")) {
        EchoStep::LoadSchema(t) => {
            assert!(matches!(after_load(t.clone(), None), EchoStep::Discover));
            let schema = Arc::new(MessageSchema {
                full_name: "p/msg/T".to_string(),
                package: "p".to_string(),
                name: "T".to_string(),
                fields: vec![],
                type_hash: None,
            });
            match after_load(t, Some(schema)) {
                EchoStep::Subscribe { schema, hash } => {
                    assert_eq!(schema.name, "T");
                    assert_eq!(hash, "RIHS01_T");
                }
                _ => panic!("there is a schema"),
            }
        }
        _ => panic!("the type is known"),
    }
    assert!(matches!(after_subscribe(true), EchoStep::Done));
    assert!(matches!(after_subscribe(false), EchoStep::Discover));
}

fn topic(name: &str, message_type: &str) -> Topic {
    Topic { name: name.to_string(), message_type: message_type.to_string() }
}

fn told(events: &[TopicEvent]) -> Vec<String> {
    events
        .iter()
        .map(|e| match e {
            TopicEvent::Discovered { topic, message_type } => format!("+{}:{}", topic, message_type),
            TopicEvent::Removed { topic } => format!("-{}", topic),
        })
        .collect()
}

#[test]
fn changes_among_topics_are_told() {
    let mut last: NameMap<String> = NameMap::new();
    let first = topic_changes(&mut last, &vec![topic("/b", "T"), topic("/a", "U")]);
    assert_eq!(told(&first), vec!["+/b:T", "+/a:U"]);
    let same = topic_changes(&mut last, &vec![topic("/a", "U"), topic("/b", "T")]);
    assert!(same.is_empty());
    let second = topic_changes(&mut last, &vec![topic("/c", "V"), topic("/a", "W")]);
    assert_eq!(told(&second), vec!["+/c:V", "-/b"]);
    assert_eq!(last.key_list(), vec!["/a", "/c"]);
    assert_eq!(last.get("/a").unwrap(), "W");
}

// Logging

#[test]
fn logs_stay_off_the_screen() {
    let plain = init_logger(false, false, None);
    assert_eq!(plain.format, LogFormat::Compact);
    assert_eq!(plain.target, LogTarget::Stderr);
    assert!(plain.ansi);
    assert_eq!(plain.notice, None);
    let drawn = init_logger(false, true, None);
    assert_eq!(drawn.target, LogTarget::File);
    assert!(!drawn.ansi);
    assert_eq!(drawn.notice.unwrap(), "hiroz-console: logging to hiroz-console.log");
    let failed = init_logger(true, true, Some("denied".to_string()));
    assert_eq!(failed.format, LogFormat::Json);
    assert_eq!(failed.target, LogTarget::Stderr);
    assert!(!failed.ansi);
    assert_eq!(
        failed.notice.unwrap(),
        "hiroz-console: could not open hiroz-console.log (denied); logging to stderr"
    );
    assert!(!init_logger(true, false, None).ansi);
    assert_eq!(default_filter(true), "hiroz=debug,zenoh=debug");
    assert_eq!(default_filter(false), "hiroz=info,zenoh=warn");
}
