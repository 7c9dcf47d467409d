//! The connection of the console to the system that it watches.

use crate::dynamic::schema::MessageSchema;
use crate::names::NameMap;
use crate::text;
use crate::text::{decimal_text, join2, join3, text_eq};
use std::sync::Arc;
use vstd::prelude::*;
use vstd::string::*;

verus! {

/// The kind of bridge that the watched system uses.
#[derive(Clone, Copy, PartialEq, Eq, Structural, Debug)]
pub enum Backend {
    RmwZenoh,
    Ros2Dds,
}

impl Default for Backend {
    fn default() -> (b: Self)
        ensures
            b is RmwZenoh,
    {
        Backend::RmwZenoh
    }
}

impl Backend {
    /// The pattern of the liveliness tokens of a domain.
    pub open spec fn pattern(self, domain_id: usize) -> Seq<char> {
        match self {
            Backend::RmwZenoh => "@ros2_lv/"@ + text::decimal(domain_id as nat) + "/**"@,
            Backend::Ros2Dds => "@/*/@ros2_lv/**"@,
        }
    }

    /// Writes the pattern of the liveliness tokens of a domain.
    pub fn liveliness_pattern(self, domain_id: usize) -> (s: String)
        ensures
            s@ == self.pattern(domain_id),
    {
        match self {
            Backend::RmwZenoh => join3(
                "@ros2_lv/",
                decimal_text(domain_id as u64).as_str(),
                "/**",
            ),
            Backend::Ros2Dds => "@/*/@ros2_lv/**".to_owned(),
        }
    }
}

/// A setting of a session: its key, and its value as JSON.
pub struct Setting {
    pub key: String,
    pub value: String,
}

/// The settings of a session: a client of the given router, without scouting.
pub open spec fn settings_for(router_addr: Seq<char>) -> Seq<(Seq<char>, Seq<char>)> {
    seq![
        ("mode"@, "\"client\""@),
        ("connect/endpoints"@, "[\""@ + router_addr + "\"]"@),
        ("scouting/multicast/enabled"@, "false"@),
    ]
}

/// The settings of a session, in the order in which they are made.
pub fn session_settings(router_addr: &str) -> (v: Vec<Setting>)
    ensures
        v@.len() == settings_for(router_addr@).len(),
        forall|i: int|
            0 <= i < v@.len() ==> ((#[trigger] v@[i]).key@, v@[i].value@) == settings_for(
                router_addr@,
            )[i],
{
    let mut v: Vec<Setting> = Vec::new();
    v.push(Setting { key: "mode".to_owned(), value: "\"client\"".to_owned() });
    v.push(
        Setting {
            key: "connect/endpoints".to_owned(),
            value: join3("[\"", router_addr, "\"]"),
        },
    );
    v.push(
        Setting { key: "scouting/multicast/enabled".to_owned(), value: "false".to_owned() },
    );
    v
}

/// A step of starting up that can fail.
#[derive(Clone, Copy, PartialEq, Eq, Structural, Debug)]
pub enum Startup {
    Session,
    Context,
}

/// What is said of a step that fails.
pub open spec fn startup_complaint(step: Startup, cause: Seq<char>) -> Seq<char> {
    match step {
        Startup::Session => "Failed to initialize Zenoh session: "@ + cause,
        Startup::Context => "Failed to create ROS context: "@ + cause,
    }
}

/// Says what failed.
pub fn startup_error(step: Startup, cause: &str) -> (s: String)
    ensures
        s@ == startup_complaint(step, cause@),
{
    match step {
        Startup::Session => join2("Failed to initialize Zenoh session: ", cause),
        Startup::Context => join2("Failed to create ROS context: ", cause),
    }
}

/// How the console's own node is made.
pub struct NodeOptions {
    pub name: String,
    /// Whether it tells what it knows of message types.
    pub type_description_service: bool,
}

/// How the console's own node is made.
pub fn node_options() -> (o: NodeOptions)
    ensures
        o.name@ == "hiroz_console"@,
        o.type_description_service,
{
    NodeOptions { name: "hiroz_console".to_owned(), type_description_service: true }
}

/// A session with so many routers is connected.
pub open spec fn connected(routers: usize) -> bool {
    routers > 0
}

/// Whether a session is connected: there is a router.
pub fn is_connected(routers: usize) -> (r: bool)
    ensures
        r == connected(routers),
{
    routers > 0
}

// ---------------------------------------------------------------------------
// Message types
// ---------------------------------------------------------------------------

/// A message type and its hash.
pub struct TypeInfo {
    pub name: String,
    pub hash: String,
}

impl Clone for TypeInfo {
    fn clone(&self) -> (t: Self)
        ensures
            t == *self,
    {
        TypeInfo { name: self.name.clone(), hash: self.hash.clone() }
    }
}

/// The first type that is known.
pub open spec fn first_type(types: Seq<Option<TypeInfo>>) -> Option<TypeInfo>
    decreases types.len(),
{
    if types.len() == 0 {
        None
    } else {
        match first_type(types.drop_last()) {
            Some(t) => Some(t),
            None => types.last(),
        }
    }
}

fn find_type(types: &Vec<Option<TypeInfo>>) -> (r: Option<TypeInfo>)
    ensures
        r == first_type(types@),
{
    let mut i: usize = 0;
    assert(types@.take(0) =~= Seq::empty());
    while i < types.len()
        invariant
            i <= types@.len(),
            first_type(types@.take(i as int)) is None,
        decreases types@.len() - i,
    {
        assert(types@.take(i + 1).drop_last() =~= types@.take(i as int));
        match &types[i] {
            Some(t) => {
                proof {
                    first_type_stays(types@, i + 1);
                }
                return Some(t.clone());
            },
            None => {},
        }
        i += 1;
    }
    assert(types@.take(i as int) =~= types@);
    None
}

proof fn first_type_stays(types: Seq<Option<TypeInfo>>, n: int)
    requires
        0 <= n <= types.len(),
        first_type(types.take(n)) is Some,
    ensures
        first_type(types) == first_type(types.take(n)),
    decreases types.len(),
{
    if n == types.len() {
        assert(types.take(n) =~= types);
    } else {
        assert(types.drop_last().take(n) =~= types.take(n));
        first_type_stays(types.drop_last(), n);
    }
}

/// The message type of a topic, from those of its publishers and those of its
/// subscriptions.
pub open spec fn topic_type(
    publishers: Seq<Option<TypeInfo>>,
    subscriptions: Seq<Option<TypeInfo>>,
) -> Option<TypeInfo> {
    match first_type(publishers) {
        Some(t) => Some(t),
        None => first_type(subscriptions),
    }
}

/// The message type of a topic: the first that is known among its publishers,
/// then among its subscriptions.
pub fn lookup_topic_type(
    publishers: &Vec<Option<TypeInfo>>,
    subscriptions: &Vec<Option<TypeInfo>>,
) -> (r: Option<TypeInfo>)
    ensures
        r == topic_type(publishers@, subscriptions@),
{
    match find_type(publishers) {
        Some(t) => Some(t),
        None => find_type(subscriptions),
    }
}

/// What is done next to subscribe to a topic for its echo.
pub enum EchoStep {
    /// The schema of the message type is loaded from installed definitions.
    LoadSchema(TypeInfo),
    /// The topic is subscribed to with a schema and the hash of its type.
    Subscribe { schema: Arc<MessageSchema>, hash: String },
    /// The message type is asked for.
    Discover,
    /// There is a subscriber.
    Done,
}

/// What is done once it is known whether the topic's type is.
pub open spec fn step_after_lookup(found: Option<TypeInfo>) -> EchoStep {
    match found {
        Some(t) => EchoStep::LoadSchema(t),
        None => EchoStep::Discover,
    }
}

/// What is done once the schema of the topic's type is loaded, or is not there.
pub open spec fn step_after_load(
    found: TypeInfo,
    schema: Option<Arc<MessageSchema>>,
) -> EchoStep {
    match schema {
        Some(schema) => EchoStep::Subscribe { schema, hash: found.hash },
        None => EchoStep::Discover,
    }
}

/// What is done once the subscription was made, or was not.
pub open spec fn step_after_subscribe(subscribed: bool) -> EchoStep {
    if subscribed {
        EchoStep::Done
    } else {
        EchoStep::Discover
    }
}

/// Goes on from what is known of the topic's type.
pub fn after_lookup(found: Option<TypeInfo>) -> (s: EchoStep)
    ensures
        s == step_after_lookup(found),
{
    match found {
        Some(t) => EchoStep::LoadSchema(t),
        None => EchoStep::Discover,
    }
}

/// Goes on from what was loaded for the topic's type.
pub fn after_load(found: TypeInfo, schema: Option<Arc<MessageSchema>>) -> (s: EchoStep)
    ensures
        s == step_after_load(found, schema),
{
    match schema {
        Some(schema) => EchoStep::Subscribe { schema, hash: found.hash },
        None => EchoStep::Discover,
    }
}

/// Goes on from whether the subscription was made.
pub fn after_subscribe(subscribed: bool) -> (s: EchoStep)
    ensures
        s == step_after_subscribe(subscribed),
{
    if subscribed {
        EchoStep::Done
    } else {
        EchoStep::Discover
    }
}

// ---------------------------------------------------------------------------
// Topics
// ---------------------------------------------------------------------------

/// A topic and its message type.
pub struct Topic {
    pub name: String,
    pub message_type: String,
}

/// A change among the topics.
pub enum TopicEvent {
    Discovered { topic: String, message_type: String },
    Removed { topic: String },
}

/// A change among the topics.
pub ghost enum Change {
    Discovered(Seq<char>, Seq<char>),
    Removed(Seq<char>),
}

impl View for TopicEvent {
    type V = Change;

    open spec fn view(&self) -> Change {
        match self {
            TopicEvent::Discovered { topic, message_type } => Change::Discovered(
                topic@,
                message_type@,
            ),
            TopicEvent::Removed { topic } => Change::Removed(topic@),
        }
    }
}

/// The views of events.
pub open spec fn changes(events: Seq<TopicEvent>) -> Seq<Change> {
    Seq::new(events.len(), |i: int| events[i]@)
}

/// A topic of that name is there.
pub open spec fn is_topic(topics: Seq<Topic>, name: Seq<char>) -> bool {
    exists|i: int| 0 <= i < topics.len() && (#[trigger] topics[i]).name@ == name
}

/// The topics that were not there, in order.
pub open spec fn appeared(last: Map<Seq<char>, String>, topics: Seq<Topic>) -> Seq<Change>
    decreases topics.len(),
{
    if topics.len() == 0 {
        Seq::empty()
    } else {
        let before = appeared(last, topics.drop_last());
        if last.contains_key(topics.last().name@) {
            before
        } else {
            before.push(Change::Discovered(topics.last().name@, topics.last().message_type@))
        }
    }
}

/// The names that are there no more, in order.
pub open spec fn vanished(names: Seq<Seq<char>>, topics: Seq<Topic>) -> Seq<Change>
    decreases names.len(),
{
    if names.len() == 0 {
        Seq::empty()
    } else {
        let before = vanished(names.drop_last(), topics);
        if is_topic(topics, names.last()) {
            before
        } else {
            before.push(Change::Removed(names.last()))
        }
    }
}

/// The topics by name. Of several of one name the last counts.
pub open spec fn by_name(topics: Seq<Topic>) -> Map<Seq<char>, String>
    decreases topics.len(),
{
    if topics.len() == 0 {
        Map::empty()
    } else {
        by_name(topics.drop_last()).insert(topics.last().name@, topics.last().message_type)
    }
}

/// The changes from the topics that were there, by their names and in order, to
/// those that are there.
pub open spec fn changes_between(
    last: Map<Seq<char>, String>,
    names: Seq<Seq<char>>,
    topics: Seq<Topic>,
) -> Seq<Change> {
    appeared(last, topics) + vanished(names, topics)
}

fn has_topic(topics: &Vec<Topic>, name: &str) -> (r: bool)
    ensures
        r == is_topic(topics@, name@),
{
    let mut i: usize = 0;
    while i < topics.len()
        invariant
            i <= topics@.len(),
            forall|j: int| 0 <= j < i ==> (#[trigger] topics@[j]).name@ != name@,
        decreases topics@.len() - i,
    {
        if text_eq(topics[i].name.as_str(), name) {
            assert(topics@[i as int].name@ == name@);
            return true;
        }
        i += 1;
    }
    false
}

/// Compares the topics that are there with those that were there last time, and
/// keeps those that are there for the next time.
pub fn topic_changes(last: &mut NameMap<String>, topics: &Vec<Topic>) -> (events: Vec<TopicEvent>)
    ensures
        changes(events@) == changes_between(old(last)@, old(last).keys(), topics@),
        final(last)@ == by_name(topics@),
{
    let ghost known = last@;
    let ghost names = last.keys();
    let mut events: Vec<TopicEvent> = Vec::new();
    let mut now: NameMap<String> = NameMap::new();
    let mut i: usize = 0;
    assert(topics@.take(0) =~= Seq::empty());
    assert(changes(events@) =~= Seq::empty());
    while i < topics.len()
        invariant
            i <= topics@.len(),
            last@ == known,
            last.keys() == names,
            changes(events@) == appeared(known, topics@.take(i as int)),
            now@ == by_name(topics@.take(i as int)),
        decreases topics@.len() - i,
    {
        assert(topics@.take(i + 1).drop_last() =~= topics@.take(i as int));
        let t = &topics[i];
        if !last.contains(t.name.as_str()) {
            let ghost es = changes(events@);
            let e = TopicEvent::Discovered {
                topic: t.name.clone(),
                message_type: t.message_type.clone(),
            };
            let ghost seen = e@;
            events.push(e);
            assert(changes(events@) =~= es.push(seen));
        }
        now.insert(t.name.clone(), t.message_type.clone());
        i += 1;
    }
    assert(topics@.take(i as int) =~= topics@);
    let n: usize = last.len();
    let ghost first = changes(events@);
    i = 0;
    assert(names.take(0) =~= Seq::empty());
    assert(first + vanished(names.take(0), topics@) =~= first);
    while i < n
        invariant
            i <= n,
            n == names.len(),
            last.keys() == names,
            changes(events@) == first + vanished(names.take(i as int), topics@),
        decreases n - i,
    {
        let name = last.key_at(i);
        assert(names.take(i + 1).drop_last() =~= names.take(i as int));
        if !has_topic(topics, name.as_str()) {
            let ghost es = changes(events@);
            let e = TopicEvent::Removed { topic: name.clone() };
            let ghost seen = e@;
            events.push(e);
            assert(changes(events@) =~= es.push(seen));
            assert(es.push(seen) =~= first + vanished(names.take(i + 1), topics@));
        }
        i += 1;
    }
    assert(names.take(i as int) =~= names);
    *last = now;
    events
}

} // verus!
