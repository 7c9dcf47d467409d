//! The echo of live messages: one buffer of lines for each measured topic.
//!
//! A worker keeps a subscriber and a buffer for each measured topic. It is told
//! which topics are measured, what came of looking for a topic's message type,
//! and what a subscriber has received.

use crate::names::NameMap;
use crate::text;
use crate::text::{decimal_text, join3, lines_of};
use std::collections::VecDeque;
use std::time::Instant;
use vstd::prelude::*;
use vstd::string::*;

verus! {

/// A point in time of `std`.
#[verifier::external_type_specification]
#[verifier::external_body]
pub struct ExInstant(std::time::Instant);

/// How many milliseconds to look for a message type before giving up.
pub const DISCOVERY_TIMEOUT_MS: u64 = 3000;

/// How many milliseconds pass between two looks at the subscribers.
pub const POLL_INTERVAL_MS: u64 = 100;

/// How many lines are kept for a topic.
pub const MAX_ECHO_LINES: usize = 5000;

/// How the echo of a topic stands.
#[derive(PartialEq, Debug)]
pub enum EchoStatus {
    /// No topic is selected.
    Idle,
    /// The message type is being looked for.
    Discovering,
    /// There is a subscriber, and no message yet.
    NoData,
    /// Messages come in.
    Active,
    /// The message type was not found, or a message could not be read.
    Error(String),
}

impl Default for EchoStatus {
    fn default() -> (s: Self)
        ensures
            s is Idle,
    {
        EchoStatus::Idle
    }
}

impl Clone for EchoStatus {
    fn clone(&self) -> (s: Self)
        ensures
            s == *self,
    {
        match self {
            EchoStatus::Idle => EchoStatus::Idle,
            EchoStatus::Discovering => EchoStatus::Discovering,
            EchoStatus::NoData => EchoStatus::NoData,
            EchoStatus::Active => EchoStatus::Active,
            EchoStatus::Error(e) => EchoStatus::Error(e.clone()),
        }
    }
}

/// The echo of a topic.
pub struct EchoState {
    /// The topic that the lines belong to.
    pub topic: Option<String>,
    /// The message type, once it is known.
    pub message_type: Option<String>,
    /// The messages, line by line, the newest last.
    pub lines: VecDeque<String>,
    pub status: EchoStatus,
    /// How many messages were received.
    pub msg_count: u64,
    pub last_update: Option<Instant>,
}

impl Default for EchoState {
    fn default() -> (s: Self)
        ensures
            s.topic is None,
            s.message_type is None,
            s.lines@.len() == 0,
            s.status is Idle,
            s.msg_count == 0,
            s.last_update is None,
    {
        EchoState {
            topic: None,
            message_type: None,
            lines: VecDeque::new(),
            status: EchoStatus::Idle,
            msg_count: 0,
            last_update: None,
        }
    }
}

/// Lines with one more at the end. Of too many lines the oldest is taken out
/// before.
pub open spec fn with_line(lines: Seq<Seq<char>>, line: Seq<char>) -> Seq<Seq<char>> {
    if lines.len() >= MAX_ECHO_LINES {
        lines.skip(1).push(line)
    } else {
        lines.push(line)
    }
}

/// Lines with more lines at the end, one after the other.
pub open spec fn with_lines(lines: Seq<Seq<char>>, more: Seq<Seq<char>>) -> Seq<Seq<char>>
    decreases more.len(),
{
    if more.len() == 0 {
        lines
    } else {
        with_line(with_lines(lines, more.drop_last()), more.last())
    }
}

proof fn lines_stay_some(lines: Seq<Seq<char>>, more: Seq<Seq<char>>)
    requires
        lines.len() > 0,
    ensures
        with_lines(lines, more).len() > 0,
    decreases more.len(),
{
    if more.len() > 0 {
        lines_stay_some(lines, more.drop_last());
    }
}

impl EchoState {
    /// The lines.
    pub open spec fn shown(&self) -> Seq<Seq<char>> {
        text::texts(self.lines@)
    }

    /// Nothing has been received for `topic`.
    pub open spec fn is_fresh(&self, topic: Option<String>, status: EchoStatus) -> bool {
        &&& self.topic == topic
        &&& self.message_type is None
        &&& self.lines@.len() == 0
        &&& self.status == status
        &&& self.msg_count == 0
        &&& self.last_update is None
    }

    /// Nothing has been received for the topic `t`, whose message type is being
    /// looked for.
    pub open spec fn is_placeholder(&self, t: Seq<char>) -> bool {
        exists|name: String|
            name@ == t && #[trigger] self.is_fresh(Some(name), EchoStatus::Discovering)
    }

    /// Begins anew for a topic.
    pub fn reset_for(&mut self, topic: Option<String>, status: EchoStatus)
        ensures
            final(self).is_fresh(topic, status),
    {
        self.topic = topic;
        self.message_type = None;
        self.lines.clear();
        self.status = status;
        self.msg_count = 0;
        self.last_update = None;
    }

    /// Adds a line, and takes out the oldest where there are too many.
    pub fn push_line(&mut self, line: String)
        ensures
            final(self).shown() == with_line(old(self).shown(), line@),
            final(self).topic == old(self).topic,
            final(self).message_type == old(self).message_type,
            final(self).status == old(self).status,
            final(self).msg_count == old(self).msg_count,
            final(self).last_update == old(self).last_update,
    {
        let ghost before = self.shown();
        if self.lines.len() >= MAX_ECHO_LINES {
            self.lines.pop_front();
            assert(self.shown() =~= before.skip(1));
        }
        let ghost middle = self.shown();
        self.lines.push_back(line);
        assert(self.shown() =~= middle.push(line@));
    }

    /// Adds lines, in order.
    fn push_lines(&mut self, lines: Vec<String>)
        ensures
            final(self).shown() == with_lines(old(self).shown(), text::texts(lines@)),
            final(self).topic == old(self).topic,
            final(self).message_type == old(self).message_type,
            final(self).status == old(self).status,
            final(self).msg_count == old(self).msg_count,
            final(self).last_update == old(self).last_update,
    {
        let ghost all = text::texts(lines@);
        let ghost begun = *self;
        assert(all.take(0) =~= Seq::empty());
        let mut i: usize = 0;
        while i < lines.len()
            invariant
                i <= lines@.len(),
                all == text::texts(lines@),
                self.shown() == with_lines(begun.shown(), all.take(i as int)),
                self.topic == begun.topic,
                self.message_type == begun.message_type,
                self.status == begun.status,
                self.msg_count == begun.msg_count,
                self.last_update == begun.last_update,
            decreases lines@.len() - i,
        {
            self.push_line(lines[i].clone());
            assert(all.take(i + 1).drop_last() =~= all.take(i as int));
            assert(all[i as int] == lines@[i as int]@);
            i += 1;
        }
        assert(all.take(i as int) =~= all);
    }
}

/// The line above a message.
pub open spec fn separator(count: nat) -> Seq<char> {
    "──────── #"@ + text::decimal(count) + " ────────"@
}

/// What a look at a subscriber brought.
pub struct Drained<M> {
    /// The newest message.
    pub latest: Option<M>,
    /// How many messages there were.
    pub received: u64,
    /// The last failure to read a message.
    pub decode_err: Option<String>,
}

/// The newest message.
pub open spec fn newest<M>(results: Seq<Result<M, String>>) -> Option<M>
    decreases results.len(),
{
    if results.len() == 0 {
        None
    } else {
        match results.last() {
            Ok(m) => Some(m),
            Err(_) => newest(results.drop_last()),
        }
    }
}

/// How many messages there were.
pub open spec fn how_many<M>(results: Seq<Result<M, String>>) -> nat
    decreases results.len(),
{
    if results.len() == 0 {
        0
    } else {
        how_many(results.drop_last()) + (if results.last() is Ok {
            1nat
        } else {
            0
        })
    }
}

/// The last failure.
pub open spec fn last_failure<M>(results: Seq<Result<M, String>>) -> Option<String>
    decreases results.len(),
{
    if results.len() == 0 {
        None
    } else {
        match results.last() {
            Ok(_) => last_failure(results.drop_last()),
            Err(e) => Some(e),
        }
    }
}

/// Sums up what came out of a subscriber's queue, in order.
pub fn drain<M>(results: Vec<Result<M, String>>) -> (d: Drained<M>)
    ensures
        d.latest == newest(results@),
        d.received == how_many(results@),
        d.decode_err == last_failure(results@),
{
    let ghost all = results@;
    let mut latest: Option<M> = None;
    let mut received: u64 = 0;
    let mut decode_err: Option<String> = None;
    assert(all.take(0) =~= Seq::empty());
    let n: usize = results.len();
    for r in it: results
        invariant
            it.seq() == all,
            all.len() == n,
            received <= it.index(),
            latest == newest(all.take(it.index())),
            received == how_many(all.take(it.index())),
            decode_err == last_failure(all.take(it.index())),
    {
        proof {
            let k = it.index();
            assert(all.take(k + 1).drop_last() =~= all.take(k));
            assert(all.take(k + 1).last() == r);
            assert(k < n);
        }
        match r {
            Ok(m) => {
                latest = Some(m);
                received = received + 1;
            },
            Err(e) => {
                decode_err = Some(e);
            },
        }
    }
    assert(all.take(all.len() as int) =~= all);
    Drained { latest, received, decode_err }
}

/// The topics of a list that are not known, in order, each once.
pub open spec fn unknown(topics: Seq<Seq<char>>, known: Set<Seq<char>>) -> Seq<Seq<char>>
    decreases topics.len(),
{
    if topics.len() == 0 {
        Seq::empty()
    } else {
        let before = unknown(topics.drop_last(), known);
        if known.contains(topics.last()) || before.contains(topics.last()) {
            before
        } else {
            before.push(topics.last())
        }
    }
}

proof fn unknown_members(topics: Seq<Seq<char>>, known: Set<Seq<char>>, t: Seq<char>)
    ensures
        unknown(topics, known).contains(t) <==> topics.contains(t) && !known.contains(t),
    decreases topics.len(),
{
    if topics.len() > 0 {
        let before = topics.drop_last();
        unknown_members(before, known, t);
        unknown_members(before, known, topics.last());
        assert(topics =~= before.push(topics.last()));
        pushed_members(before, topics.last(), t);
        pushed_members(unknown(before, known), topics.last(), t);
    }
}

proof fn pushed_members(s: Seq<Seq<char>>, a: Seq<char>, t: Seq<char>)
    ensures
        s.push(a).contains(t) <==> s.contains(t) || t == a,
{
    if s.contains(t) {
        let i = s.index_of(t);
        assert(s.push(a)[i] == t);
    }
    if t == a {
        assert(s.push(a)[s.len() as int] == t);
    }
    if s.push(a).contains(t) {
        let i = s.push(a).index_of(t);
        if i < s.len() {
            assert(s[i] == t);
        }
    }
}

/// The names in a list.
fn name_set(list: &Vec<String>) -> (r: NameMap<()>)
    ensures
        r@.dom() == text::texts(list@).to_set(),
{
    let ghost all = text::texts(list@);
    let mut r: NameMap<()> = NameMap::new();
    let mut i: usize = 0;
    assert(r@.dom() =~= all.take(0).to_set());
    while i < list.len()
        invariant
            i <= list@.len(),
            all == text::texts(list@),
            r@.dom() == all.take(i as int).to_set(),
        decreases list@.len() - i,
    {
        let ghost before = r@.dom();
        r.insert(list[i].clone(), ());
        proof {
            let name = list@[i as int]@;
            assert(all[i as int] == name);
            assert(all.take(i + 1) =~= all.take(i as int).push(name));
            assert forall|t: Seq<char>| r@.dom().contains(t) <==> all.take(i + 1).to_set().contains(
                t,
            ) by {
                pushed_members(all.take(i as int), name, t);
                assert(before.contains(t) <==> all.take(i as int).to_set().contains(t));
            }
            assert(r@.dom() =~= all.take(i + 1).to_set());
        }
        i += 1;
    }
    assert(all.take(i as int) =~= all);
    r
}

/// The subscribers of the echo worker, and the topics whose message types are
/// being looked for.
pub struct EchoWorker<S> {
    pub current: NameMap<S>,
    pub pending: NameMap<()>,
}

/// `after` holds a buffer for each of the topics: the one that was there, or a
/// fresh one.
pub open spec fn buffers_for(
    topics: Set<Seq<char>>,
    before: Map<Seq<char>, EchoState>,
    after: Map<Seq<char>, EchoState>,
) -> bool {
    &&& after.dom() == topics
    &&& forall|t: Seq<char>|
        topics.contains(t) ==> (if before.contains_key(t) {
            #[trigger] after[t] == before[t]
        } else {
            after[t].is_placeholder(t)
        })
}

impl<S> EchoWorker<S> {
    /// `after` and `now` are what the worker and the buffers become once the
    /// topics `desired` are measured, and `asked` are the topics whose message
    /// types are then to be looked for.
    pub open spec fn is_changed_to(
        &self,
        after: EchoWorker<S>,
        states: Map<Seq<char>, EchoState>,
        now: Map<Seq<char>, EchoState>,
        desired: Seq<Seq<char>>,
        asked: Seq<Seq<char>>,
    ) -> bool {
        let wanted = desired.to_set();
        let kept = self.pending@.dom().intersect(wanted);
        &&& after.current@ == self.current@.restrict(wanted)
        &&& after.pending@.dom() == kept.union(wanted.difference(self.current@.dom()))
        &&& buffers_for(wanted, states, now)
        &&& asked == unknown(desired, self.current@.dom().intersect(wanted).union(kept))
    }

    /// `after` and `now` are what the worker and the buffers become with what
    /// came of looking for the message type of `topic`.
    pub open spec fn is_informed(
        &self,
        after: EchoWorker<S>,
        states: Map<Seq<char>, EchoState>,
        now: Map<Seq<char>, EchoState>,
        topic: Seq<char>,
        found: Result<(S, Option<String>), String>,
    ) -> bool {
        &&& after.pending@ == self.pending@.remove(topic)
        &&& if !states.contains_key(topic) {
            &&& now == states
            &&& after.current@ == self.current@
        } else {
            let st = states[topic];
            match found {
                Ok((sub, message_type)) => {
                    &&& after.current@ == self.current@.insert(topic, sub)
                    &&& now == states.insert(
                        topic,
                        EchoState {
                            message_type,
                            status: if st.status is Discovering {
                                EchoStatus::NoData
                            } else {
                                st.status
                            },
                            ..st
                        },
                    )
                },
                Err(e) => {
                    &&& after.current@ == self.current@
                    &&& now == states.insert(
                        topic,
                        EchoState { status: EchoStatus::Error(e), ..st },
                    )
                },
            }
        }
    }

    /// A worker without any topics.
    pub fn new() -> (w: Self)
        ensures
            w.current@ == Map::<Seq<char>, S>::empty(),
            w.pending@ == Map::<Seq<char>, ()>::empty(),
    {
        EchoWorker { current: NameMap::new(), pending: NameMap::new() }
    }

    /// Takes notice of the measured topics. What belongs to other topics is
    /// dropped, and the topics come back whose message types are now to be
    /// looked for.
    pub fn topics_changed(&mut self, states: &mut NameMap<EchoState>, desired: &Vec<String>) -> (r:
        Vec<String>)
        ensures
            old(self).is_changed_to(
                *final(self),
                old(states)@,
                final(states)@,
                text::texts(desired@),
                text::texts(r@),
            ),
    {
        let ghost all = text::texts(desired@);
        let ghost wanted = all.to_set();
        let ghost begun = *self;
        let ghost before = states@;
        let set = name_set(desired);
        self.current.retain_named(&set);
        self.pending.retain_named(&set);
        let ghost kept = begun.pending@.dom().intersect(wanted);
        assert(self.pending@.dom() =~= kept);
        states.retain_named(&set);
        let mut i: usize = 0;
        assert(states@ =~= before.restrict(wanted));
        while i < desired.len()
            invariant
                i <= desired@.len(),
                all == text::texts(desired@),
                wanted == all.to_set(),
                forall|t: Seq<char>| #[trigger]
                    states@.contains_key(t) <==> wanted.contains(t) && (before.contains_key(t)
                        || all.take(i as int).contains(t)),
                forall|t: Seq<char>|
                    #![trigger states@[t]]
                    states@.contains_key(t) ==> (if before.contains_key(t) {
                        states@[t] == before[t]
                    } else {
                        states@[t].is_placeholder(t)
                    }),
            decreases desired@.len() - i,
        {
            let ghost had = states@;
            let ghost name = desired@[i as int]@;
            proof {
                assert(all[i as int] == name);
                assert(all.contains(name));
                assert(wanted.contains(name));
                assert(all.take(i + 1) =~= all.take(i as int).push(name));
                assert forall|t: Seq<char>| all.take(i + 1).contains(t) <==> all.take(
                    i as int,
                ).contains(t) || t == name by {
                    pushed_members(all.take(i as int), name, t);
                }
            }
            if !states.contains(desired[i].as_str()) {
                let mut fresh = EchoState::default();
                let topic = desired[i].clone();
                fresh.reset_for(Some(topic), EchoStatus::Discovering);
                let ghost blank = fresh;
                states.insert(desired[i].clone(), fresh);
                assert(states@[name] == blank);
                assert(blank.is_fresh(Some(topic), EchoStatus::Discovering));
                assert(blank.is_placeholder(name));
                assert forall|t: Seq<char>|
                    #![trigger states@[t]]
                    states@.contains_key(t) && t != name implies had.contains_key(t) && states@[t]
                    == had[t] by {}
                assert(!before.contains_key(name));
            }
            i += 1;
        }
        assert(all.take(i as int) =~= all);
        assert forall|t: Seq<char>| #[trigger] wanted.contains(t) implies states@.contains_key(t) by {
            assert(all.contains(t));
        }
        assert(states@.dom() =~= wanted);
        assert(buffers_for(wanted, before, states@));
        let ghost known = begun.current@.dom().intersect(wanted).union(kept);
        let mut r: Vec<String> = Vec::new();
        i = 0;
        assert(all.take(0) =~= Seq::empty());
        assert(text::texts(r@) =~= Seq::empty());
        while i < desired.len()
            invariant
                i <= desired@.len(),
                all == text::texts(desired@),
                wanted == all.to_set(),
                kept == begun.pending@.dom().intersect(wanted),
                known == begun.current@.dom().intersect(wanted).union(kept),
                self.current@ == begun.current@.restrict(wanted),
                text::texts(r@) == unknown(all.take(i as int), known),
                forall|t: Seq<char>| #[trigger]
                    self.pending@.contains_key(t) <==> kept.contains(t) || unknown(
                        all.take(i as int),
                        known,
                    ).contains(t),
            decreases desired@.len() - i,
        {
            let ghost name = desired@[i as int]@;
            let ghost so_far = unknown(all.take(i as int), known);
            let ghost had = self.pending@;
            proof {
                assert(all[i as int] == name);
                assert(all.contains(name));
                assert(all.take(i + 1).drop_last() =~= all.take(i as int));
                assert(all.take(i + 1).last() == name);
            }
            let topic = desired[i].as_str();
            if !self.current.contains(topic) && !self.pending.contains(topic) {
                self.pending.insert(desired[i].clone(), ());
                let ghost rs = text::texts(r@);
                r.push(desired[i].clone());
                proof {
                    assert(text::texts(r@) =~= rs.push(name));
                    assert forall|t: Seq<char>| so_far.push(name).contains(t) <==> so_far.contains(t)
                        || t == name by {
                        pushed_members(so_far, name, t);
                    }
                }
            }
            i += 1;
        }
        proof {
            assert(all.take(i as int) =~= all);
            assert forall|t: Seq<char>| self.pending@.dom().contains(t) <==> kept.union(
                wanted.difference(begun.current@.dom()),
            ).contains(t) by {
                unknown_members(all, known, t);
                assert(self.pending@.contains_key(t) <==> kept.contains(t) || unknown(
                    all,
                    known,
                ).contains(t));
            }
            assert(self.pending@.dom() =~= kept.union(wanted.difference(begun.current@.dom())));
        }
        r
    }

    /// Takes notice of what came of looking for a topic's message type: a
    /// subscriber and the message type, or an error. Nothing comes of it where
    /// the topic has no buffer any more.
    pub fn discovered(
        &mut self,
        states: &mut NameMap<EchoState>,
        topic: String,
        found: Result<(S, Option<String>), String>,
    )
        ensures
            old(self).is_informed(*final(self), old(states)@, final(states)@, topic@, found),
    {
        let ghost before = states@;
        let ghost begun = *self;
        self.pending.remove(topic.as_str());
        match states.remove(topic.as_str()) {
            None => {
                assert(states@ =~= before);
            },
            Some(st) => {
                let mut st = st;
                match found {
                    Ok((sub, message_type)) => {
                        st.message_type = message_type;
                        match st.status {
                            EchoStatus::Discovering => {
                                st.status = EchoStatus::NoData;
                            },
                            _ => {},
                        }
                        let ghost now = st;
                        states.insert(topic.clone(), st);
                        assert(states@ =~= before.insert(topic@, now));
                        self.current.insert(topic, sub);
                    },
                    Err(e) => {
                        st.status = EchoStatus::Error(e);
                        let ghost now = st;
                        states.insert(topic, st);
                        assert(states@ =~= before.insert(topic@, now));
                    },
                }
            },
        }
    }
}

/// The echo of a topic after a look at its subscriber, at which `received`
/// messages were found. `formatted` is the newest of them.
pub open spec fn echoed(
    st: EchoState,
    formatted: Option<String>,
    received: u64,
    decode_err: Option<String>,
    now: Instant,
    after: EchoState,
) -> bool {
    match (formatted, decode_err) {
        (Some(message), _) => {
            &&& after.topic == st.topic
            &&& after.message_type == st.message_type
            &&& after.msg_count == st.msg_count + received
            &&& after.shown() == with_lines(
                with_line(st.shown(), separator((st.msg_count + received) as nat)),
                text::lines(message@),
            )
            &&& after.status is Active
            &&& after.last_update == Some(now)
        },
        (None, Some(e)) => after == (EchoState { status: EchoStatus::Error(e), ..st }),
        (None, None) => after == st,
    }
}

/// The echoes of all topics after a look at the subscriber of `topic`.
pub open spec fn all_echoed(
    states: Map<Seq<char>, EchoState>,
    topic: Seq<char>,
    formatted: Option<String>,
    received: u64,
    decode_err: Option<String>,
    now: Instant,
    after: Map<Seq<char>, EchoState>,
) -> bool {
    &&& after.dom() == states.dom()
    &&& forall|t: Seq<char>|
        t != topic && states.contains_key(t) ==> #[trigger] after[t] == states[t]
    &&& states.contains_key(topic) ==> echoed(
        states[topic],
        formatted,
        received,
        decode_err,
        now,
        after[topic],
    )
}

/// Takes notice of a look at a topic's subscriber.
pub fn polled(
    states: &mut NameMap<EchoState>,
    topic: &str,
    formatted: Option<String>,
    received: u64,
    decode_err: Option<String>,
    now: Instant,
)
    requires
        old(states)@.contains_key(topic@) && formatted is Some ==> old(states)@[topic@].msg_count
            + received <= u64::MAX,
    ensures
        all_echoed(
            old(states)@,
            topic@,
            formatted,
            received,
            decode_err,
            now,
            final(states)@,
        ),
        formatted is Some && old(states)@.contains_key(topic@) ==> final(states)@[topic@].shown().len()
            > 0,
{
    if formatted.is_none() && decode_err.is_none() {
        return;
    }
    let ghost before = states@;
    match states.remove(topic) {
        None => {
            assert(states@ =~= before);
        },
        Some(st) => {
            let mut st = st;
            match formatted {
                Some(message) => {
                    st.msg_count = st.msg_count + received;
                    let count = decimal_text(st.msg_count);
                    st.push_line(join3("──────── #", count.as_str(), " ────────"));
                    let ghost above = st.shown();
                    let lines = lines_of(message.as_str());
                    st.push_lines(lines);
                    proof {
                        lines_stay_some(above, text::texts(lines@));
                    }
                    st.status = EchoStatus::Active;
                    st.last_update = Some(now);
                },
                None => match decode_err {
                    Some(e) => {
                        st.status = EchoStatus::Error(e);
                    },
                    None => {},
                },
            }
            states.insert(topic.to_owned(), st);
            assert(states@.dom() =~= before.dom());
        },
    }
}

} // verus!
