//! What holds of the console as a whole.

use crate::console::echo;
use crate::console::echo::{EchoState, EchoWorker, MAX_ECHO_LINES};
use crate::console::engine;
use crate::console::engine::Topic;
use crate::console::logger;
use crate::console::logger::LogPlan;
use crate::console::measure;
use crate::console::measure::EchoWindow;
use crate::dynamic::schema::MessageSchema;
use crate::text;
use crate::text_laws;
use std::sync::Arc;
use std::time::Instant;
use vstd::prelude::*;

verus! {

// ---------------------------------------------------------------------------
// Wrapping
// ---------------------------------------------------------------------------

/// Rows, one behind the other.
pub open spec fn joined(rows: Seq<Seq<char>>) -> Seq<char>
    decreases rows.len(),
{
    if rows.len() == 0 {
        Seq::empty()
    } else {
        rows.first() + joined(rows.drop_first())
    }
}

/// Wrapping loses nothing and adds nothing: the rows, one behind the other, are
/// the line.
pub proof fn wrapping_keeps_the_line(line: Seq<char>, width: int)
    ensures
        joined(measure::chunks(line, width)) == line,
    decreases line.len(),
{
    let rows = measure::chunks(line, width);
    if width <= 0 || line.len() <= width {
        assert(rows.drop_first() =~= Seq::empty());
        assert(joined(rows.drop_first()) =~= Seq::empty());
        assert(joined(rows) =~= line);
    } else {
        wrapping_keeps_the_line(line.skip(width), width);
        assert(rows.drop_first() =~= measure::chunks(line.skip(width), width));
        assert(line.take(width) + line.skip(width) =~= line);
    }
}

/// No row is longer than the width, and every row but the last fills it.
pub proof fn wrapped_rows_fit(line: Seq<char>, width: int)
    requires
        width > 0,
    ensures
        measure::chunks(line, width).len() > 0,
        forall|i: int|
            0 <= i < measure::chunks(line, width).len() ==> (#[trigger] measure::chunks(line, width)[i]).len()
                <= width,
        forall|i: int|
            0 <= i < measure::chunks(line, width).len() - 1 ==> (#[trigger] measure::chunks(
                line,
                width,
            )[i]).len() == width,
    decreases line.len(),
{
    if line.len() > width {
        let rest = measure::chunks(line.skip(width), width);
        wrapped_rows_fit(line.skip(width), width);
        assert forall|i: int| 0 < i < measure::chunks(line, width).len() implies #[trigger]
            measure::chunks(line, width)[i] == rest[i - 1] by {}
    }
}

/// A line that fits is one row, itself.
pub proof fn short_lines_stay(line: Seq<char>, width: int)
    requires
        line.len() <= width,
    ensures
        measure::chunks(line, width) == seq![line],
{
}

// ---------------------------------------------------------------------------
// The echo
// ---------------------------------------------------------------------------

/// However many lines come in, a buffer holds the newest of all that came, as
/// many as are kept.
pub proof fn buffer_holds_the_newest(lines: Seq<Seq<char>>, more: Seq<Seq<char>>)
    requires
        lines.len() <= MAX_ECHO_LINES,
    ensures
        ({
            let all = lines + more;
            let kept = echo::with_lines(lines, more);
            &&& kept.len() <= MAX_ECHO_LINES
            &&& kept == all.skip(
                if all.len() > MAX_ECHO_LINES {
                    all.len() - MAX_ECHO_LINES
                } else {
                    0
                },
            )
        }),
    decreases more.len(),
{
    let all = lines + more;
    let kept = echo::with_lines(lines, more);
    if more.len() == 0 {
        assert(all =~= lines);
        assert(kept =~= all.skip(0));
    } else {
        buffer_holds_the_newest(lines, more.drop_last());
        let before = lines + more.drop_last();
        assert(all =~= before.push(more.last()));
        assert(kept =~= all.skip(
            if all.len() > MAX_ECHO_LINES {
                all.len() - MAX_ECHO_LINES
            } else {
                0
            },
        ));
    }
}

/// A look at a subscriber never lets a buffer outgrow its bound, and never
/// counts messages down.
pub proof fn echo_is_bounded(
    st: EchoState,
    formatted: Option<String>,
    received: u64,
    decode_err: Option<String>,
    now: Instant,
    after: EchoState,
)
    requires
        st.shown().len() <= MAX_ECHO_LINES,
        echo::echoed(st, formatted, received, decode_err, now, after),
    ensures
        after.shown().len() <= MAX_ECHO_LINES,
        after.msg_count >= st.msg_count,
{
    if formatted is Some {
        let line = echo::separator((st.msg_count + received) as nat);
        let more = text::lines(formatted->0@);
        buffer_holds_the_newest(echo::with_line(st.shown(), line), more);
    }
}

/// The worker has a subscriber for a topic or looks for its message type, never
/// both, and only where the topic has a buffer.
pub open spec fn in_step<S>(
    current: Map<Seq<char>, S>,
    pending: Map<Seq<char>, ()>,
    states: Map<Seq<char>, EchoState>,
) -> bool {
    &&& forall|t: Seq<char>| #[trigger] current.contains_key(t) ==> states.contains_key(t)
    &&& forall|t: Seq<char>| #[trigger] pending.contains_key(t) ==> states.contains_key(t)
    &&& forall|t: Seq<char>| !(#[trigger] current.contains_key(t) && pending.contains_key(t))
}

/// After the measured topics changed, exactly they have buffers, each of them
/// has a subscriber or its message type is looked for, and the message types of
/// exactly those without either before are looked for anew.
pub proof fn measured_topics_are_echoed<S>(
    before: EchoWorker<S>,
    states: Map<Seq<char>, EchoState>,
    desired: Seq<Seq<char>>,
    after: EchoWorker<S>,
    now: Map<Seq<char>, EchoState>,
    t: Seq<char>,
)
    requires
        in_step(before.current@, before.pending@, states),
        after.current@ == before.current@.restrict(desired.to_set()),
        after.pending@.dom() == before.pending@.dom().intersect(desired.to_set()).union(
            desired.to_set().difference(before.current@.dom()),
        ),
        echo::buffers_for(desired.to_set(), states, now),
    ensures
        in_step(after.current@, after.pending@, now),
        now.contains_key(t) <==> desired.contains(t),
        desired.contains(t) <==> after.current@.contains_key(t) || after.pending@.contains_key(t),
{
    assert forall|u: Seq<char>| #[trigger] after.pending@.contains_key(u) implies now.contains_key(u)
        && !after.current@.contains_key(u) by {
        assert(after.pending@.dom().contains(u));
        if before.pending@.contains_key(u) {
            assert(!(before.current@.contains_key(u) && before.pending@.contains_key(u)));
        }
    }
    assert(after.pending@.contains_key(t) <==> after.pending@.dom().contains(t));
    assert(now.contains_key(t) <==> now.dom().contains(t));
}

/// What comes of looking for a message type leaves the worker in step.
pub proof fn discovery_keeps_in_step<S>(
    current: Map<Seq<char>, S>,
    pending: Map<Seq<char>, ()>,
    states: Map<Seq<char>, EchoState>,
    topic: Seq<char>,
    sub: S,
    st: EchoState,
)
    requires
        in_step(current, pending, states),
    ensures
        in_step(current, pending.remove(topic), states),
        states.contains_key(topic) ==> {
            &&& in_step(current, pending.remove(topic), states.insert(topic, st))
            &&& in_step(
                current.insert(topic, sub),
                pending.remove(topic),
                states.insert(topic, st),
            )
        },
{
}

/// A topic is looked for at most once at a time.
pub proof fn looked_for_once(topics: Seq<Seq<char>>, known: Set<Seq<char>>)
    ensures
        echo::unknown(topics, known).no_duplicates(),
        forall|i: int|
            0 <= i < echo::unknown(topics, known).len() ==> !known.contains(
                #[trigger] echo::unknown(topics, known)[i],
            ),
    decreases topics.len(),
{
    if topics.len() > 0 {
        looked_for_once(topics.drop_last(), known);
    }
}

/// While the newest row stays in sight, it is the last that is seen, wherever
/// the scrolling stood.
pub proof fn following_shows_the_newest(
    st: EchoState,
    width: int,
    height: int,
    scroll: int,
    w: EchoWindow,
)
    requires
        0 < height,
        measure::wrapped(st.shown(), width).len() > 0,
        ({
            let max = measure::hidden_rows(
                measure::wrapped(st.shown(), width).len() as int,
                height,
            );
            measure::is_window(
                st,
                width,
                height,
                true,
                measure::scrolled(true, scroll, max).1,
                w,
            )
        }),
    ensures
        0 < text::texts(w.rows@).len() <= height,
        text::texts(w.rows@).last() == measure::wrapped(st.shown(), width).last(),
{
}

/// Scrolling to the end follows again, and scrolling never goes beyond it.
pub proof fn scrolling_resumes_at_the_end(follow: bool, scroll: int, max: int)
    requires
        0 <= scroll,
        0 <= max,
    ensures
        0 <= measure::scrolled(follow, scroll, max).1 <= max,
        measure::scrolled(follow, scroll, max).0 <==> measure::scrolled(follow, scroll, max).1 == max,
        !follow && scroll < max ==> measure::scrolled(follow, scroll, max) == (false, scroll),
{
}

// ---------------------------------------------------------------------------
// Topics
// ---------------------------------------------------------------------------

/// A topic is announced exactly if it is there and was not.
pub proof fn new_topics_are_announced(
    last: Map<Seq<char>, String>,
    topics: Seq<Topic>,
    name: Seq<char>,
)
    ensures
        (exists|i: int|
            0 <= i < engine::appeared(last, topics).len() && (#[trigger] engine::appeared(
                last,
                topics,
            )[i] matches engine::Change::Discovered(t, _) && t == name)) <==> engine::is_topic(
            topics,
            name,
        ) && !last.contains_key(name),
    decreases topics.len(),
{
    if topics.len() > 0 {
        let before = topics.drop_last();
        new_topics_are_announced(last, before, name);
        let found = engine::appeared(last, before);
        let all = engine::appeared(last, topics);
        assert(forall|i: int| 0 <= i < before.len() ==> #[trigger] topics[i] == before[i]);
        assert(forall|i: int| 0 <= i < found.len() ==> #[trigger] all[i] == found[i]);
        let n = topics.len() - 1;
        if engine::is_topic(before, name) {
            let i = choose|i: int| 0 <= i < before.len() && (#[trigger] before[i]).name@ == name;
            assert(topics[i].name@ == name);
        }
        if topics.last().name@ == name {
            assert(topics[n].name@ == name);
            if !last.contains_key(name) {
                assert(all[found.len() as int] == all.last());
            }
        }
        if exists|i: int|
            0 <= i < found.len() && (#[trigger] found[i] matches engine::Change::Discovered(t, _) && t
                == name) {
            let i = choose|i: int|
                0 <= i < found.len() && (#[trigger] found[i] matches engine::Change::Discovered(
                    t,
                    _,
                ) && t == name);
            assert(all[i] == found[i]);
        }
    }
}

/// A topic is taken leave of exactly if it was there and is not.
pub proof fn gone_topics_are_announced(
    names: Seq<Seq<char>>,
    topics: Seq<Topic>,
    name: Seq<char>,
)
    ensures
        engine::vanished(names, topics).contains(engine::Change::Removed(name)) <==> names.contains(
            name,
        ) && !engine::is_topic(topics, name),
    decreases names.len(),
{
    if names.len() > 0 {
        let before = names.drop_last();
        gone_topics_are_announced(before, topics, name);
        let found = engine::vanished(before, topics);
        assert(names =~= before.push(names.last()));
        if before.contains(name) {
            let i = before.index_of(name);
            assert(names[i] == name);
        }
        if names.contains(name) && !before.contains(name) {
            let i = names.index_of(name);
            if i < before.len() {
                assert(before[i] == name);
            }
            assert(name == names.last());
        }
        if names.last() == name {
            assert(names[names.len() - 1] == name);
        }
        let all = engine::vanished(names, topics);
        let gone = engine::Change::Removed(name);
        if found.contains(gone) {
            let i = found.index_of(gone);
            assert(all[i] == gone);
        }
        if all.contains(gone) && !found.contains(gone) {
            let i = all.index_of(gone);
            if i < found.len() {
                assert(found[i] == gone);
            }
        }
        if names.last() == name && !engine::is_topic(topics, name) {
            assert(all[found.len() as int] == gone);
        }
    }
}

/// The names that are kept for the next time are those of the topics that are
/// there.
pub proof fn known_topics_are_those_there(topics: Seq<Topic>, name: Seq<char>)
    ensures
        engine::by_name(topics).contains_key(name) <==> engine::is_topic(topics, name),
    decreases topics.len(),
{
    if topics.len() > 0 {
        let before = topics.drop_last();
        known_topics_are_those_there(before, name);
        assert(forall|i: int| 0 <= i < before.len() ==> #[trigger] topics[i] == before[i]);
        assert(topics[topics.len() - 1] == topics.last());
        if engine::is_topic(before, name) {
            let i = choose|i: int| 0 <= i < before.len() && (#[trigger] before[i]).name@ == name;
            assert(topics[i].name@ == name);
        }
    }
}

// ---------------------------------------------------------------------------
// What a look at a subscriber shows
// ---------------------------------------------------------------------------

/// The end of `all`, as much of it as a buffer keeps.
pub open spec fn newest_lines(all: Seq<Seq<char>>) -> Seq<Seq<char>> {
    if all.len() > 5000 {
        all.skip(all.len() - 5000)
    } else {
        all
    }
}

proof fn newest_line_is_last(lines: Seq<Seq<char>>, more: Seq<Seq<char>>)
    ensures
        more.len() > 0 ==> echo::with_lines(lines, more).len() > 0 && echo::with_lines(
            lines,
            more,
        ).last() == more.last(),
        more.len() == 0 ==> echo::with_lines(lines, more) == lines,
{
}

/// A look that brings a message shows it, however the echo stood before: a line
/// with the new count above it and then all lines of the message come after what
/// was there, and of all that the newest stay, as many as are kept. The buffer is
/// not empty then, and messages come in.
pub proof fn messages_are_shown(
    st: EchoState,
    message: String,
    received: u64,
    decode_err: Option<String>,
    now: Instant,
    after: EchoState,
)
    requires
        echo::echoed(st, Some(message), received, decode_err, now, after),
    ensures
        ({
            let head = "──────── #"@ + text::decimal((st.msg_count + received) as nat)
                + " ────────"@;
            let lines = text::lines(message@);
            &&& after.shown().len() > 0
            &&& after.shown().last() == if lines.len() > 0 {
                lines.last()
            } else {
                head
            }
            &&& st.shown().len() <= MAX_ECHO_LINES ==> after.shown() == newest_lines(
                st.shown() + seq![head] + lines,
            )
            &&& after.msg_count == st.msg_count + received
            &&& after.status is Active
            &&& after.last_update == Some(now)
            &&& after.topic == st.topic
            &&& after.message_type == st.message_type
        }),
{
    let head = "──────── #"@ + text::decimal((st.msg_count + received) as nat) + " ────────"@;
    let lines = text::lines(message@);
    let above = echo::with_line(st.shown(), head);
    assert(above.len() > 0 && above.last() == head);
    newest_line_is_last(above, lines);
    if st.shown().len() <= MAX_ECHO_LINES {
        let all = st.shown() + seq![head] + lines;
        buffer_holds_the_newest(st.shown(), seq![head]);
        assert(seq![head].drop_last() =~= Seq::empty());
        assert(echo::with_lines(st.shown(), seq![head].drop_last()) == st.shown());
        assert(echo::with_lines(st.shown(), seq![head]) == above);
        buffer_holds_the_newest(above, lines);
        assert(after.shown() =~= newest_lines(all));
    }
}

/// What is shown after a look does not depend on how the echo stood: two echoes
/// with the same lines and the same count show the same after the same message.
pub proof fn status_does_not_hide_messages(
    a: EchoState,
    b: EchoState,
    message: String,
    received: u64,
    a_err: Option<String>,
    b_err: Option<String>,
    now: Instant,
    after_a: EchoState,
    after_b: EchoState,
)
    requires
        a.shown() == b.shown(),
        a.msg_count == b.msg_count,
        a.shown().len() <= MAX_ECHO_LINES,
        echo::echoed(a, Some(message), received, a_err, now, after_a),
        echo::echoed(b, Some(message), received, b_err, now, after_b),
    ensures
        after_a.shown() == after_b.shown(),
        after_a.shown().len() > 0,
        after_a.status == after_b.status,
        after_a.msg_count == after_b.msg_count,
{
    messages_are_shown(a, message, received, a_err, now, after_a);
    messages_are_shown(b, message, received, b_err, now, after_b);
}

/// A look that brings no message leaves all lines and the count. A failure to
/// read a message is told; without one nothing changes at all.
pub proof fn nothing_is_shown_without_a_message(
    st: EchoState,
    received: u64,
    decode_err: Option<String>,
    now: Instant,
    after: EchoState,
)
    requires
        echo::echoed(st, None, received, decode_err, now, after),
    ensures
        after.shown() == st.shown(),
        after.msg_count == st.msg_count,
        after.topic == st.topic,
        after.message_type == st.message_type,
        after.last_update == st.last_update,
        decode_err matches Some(e) ==> after.status == echo::EchoStatus::Error(e),
        decode_err is None ==> after.status == st.status,
{
}

/// A look at a subscriber changes the echo of its own topic and no other, and
/// neither adds nor drops a topic.
pub proof fn other_topics_stay(
    states: Map<Seq<char>, EchoState>,
    topic: Seq<char>,
    formatted: Option<String>,
    received: u64,
    decode_err: Option<String>,
    now: Instant,
    after: Map<Seq<char>, EchoState>,
    t: Seq<char>,
)
    requires
        echo::all_echoed(states, topic, formatted, received, decode_err, now, after),
    ensures
        after.contains_key(t) <==> states.contains_key(t),
        t != topic && states.contains_key(t) ==> after[t] == states[t],
        states.contains_key(topic) && formatted is Some ==> after[topic].shown().len() > 0,
{
    assert(after.contains_key(t) <==> after.dom().contains(t));
    if states.contains_key(topic) && formatted is Some {
        messages_are_shown(
            states[topic],
            formatted->0,
            received,
            decode_err,
            now,
            after[topic],
        );
    }
}

/// The newest message of a queue is the one that only failures come after; the
/// count is that of the messages; the last failure is the one that only messages
/// come after.
pub proof fn queues_are_summed_up<M>(results: Seq<Result<M, String>>)
    ensures
        echo::newest(results) matches Some(m) ==> exists|i: int|
            0 <= i < results.len() && #[trigger] results[i] == Ok::<M, String>(m) && forall|j: int|
                i < j < results.len() ==> (#[trigger] results[j]) is Err,
        echo::newest(results) is None ==> forall|j: int|
            0 <= j < results.len() ==> (#[trigger] results[j]) is Err,
        echo::last_failure(results) matches Some(e) ==> exists|i: int|
            0 <= i < results.len() && #[trigger] results[i] == Err::<M, String>(e) && forall|j: int|
                i < j < results.len() ==> (#[trigger] results[j]) is Ok,
        echo::last_failure(results) is None ==> forall|j: int|
            0 <= j < results.len() ==> (#[trigger] results[j]) is Ok,
        echo::how_many(results) == results.filter(|r: Result<M, String>| r is Ok).len(),
    decreases results.len(),
{
    reveal(Seq::filter);
    if results.len() > 0 {
        let before = results.drop_last();
        let n = results.len() - 1;
        queues_are_summed_up(before);
        assert(forall|j: int| 0 <= j < n ==> #[trigger] results[j] == before[j]);
        assert(results[n] == results.last());
        match results.last() {
            Ok(_) => {
                if echo::last_failure(before) is Some {
                    let e = echo::last_failure(before)->0;
                    let i = choose|i: int|
                        0 <= i < before.len() && #[trigger] before[i] == Err::<M, String>(e)
                            && forall|j: int| i < j < before.len() ==> (#[trigger] before[j]) is Ok;
                    assert(results[i] == Err::<M, String>(e));
                }
            },
            Err(_) => {
                if echo::newest(before) is Some {
                    let m = echo::newest(before)->0;
                    let i = choose|i: int|
                        0 <= i < before.len() && #[trigger] before[i] == Ok::<M, String>(m)
                            && forall|j: int|
                            i < j < before.len() ==> (#[trigger] before[j]) is Err;
                    assert(results[i] == Ok::<M, String>(m));
                }
            },
        }
    }
}

// ---------------------------------------------------------------------------
// The echo worker
// ---------------------------------------------------------------------------

proof fn in_push(s: Seq<Seq<char>>, a: Seq<char>, t: Seq<char>)
    ensures
        s.push(a).contains(t) <==> s.contains(t) || t == a,
{
    if s.contains(t) {
        assert(s.push(a)[s.index_of(t)] == t);
    }
    if t == a {
        assert(s.push(a)[s.len() as int] == t);
    }
    if s.push(a).contains(t) {
        let i = s.push(a).index_of(t);
        if i < s.len() {
            assert(s[i] == t);
        }
    }
}

/// The topics that are looked for are those of the list that are not known, in
/// the order in which the list first has them.
pub proof fn unknown_topics_are_looked_for(
    topics: Seq<Seq<char>>,
    known: Set<Seq<char>>,
    t: Seq<char>,
)
    ensures
        echo::unknown(topics, known).contains(t) <==> topics.contains(t) && !known.contains(t),
        topics.len() > 0 ==> echo::unknown(topics.drop_last(), known).is_prefix_of(
            echo::unknown(topics, known),
        ),
    decreases topics.len(),
{
    if topics.len() > 0 {
        let before = topics.drop_last();
        unknown_topics_are_looked_for(before, known, t);
        unknown_topics_are_looked_for(before, known, topics.last());
        assert(topics =~= before.push(topics.last()));
        in_push(before, topics.last(), t);
        let some = echo::unknown(before, known);
        in_push(some, topics.last(), t);
        assert(some =~= some.push(topics.last()).subrange(0, some.len() as int));
        assert(some =~= some.subrange(0, some.len() as int));
    }
}

/// When the measured topics change, a subscriber stays exactly if its topic is
/// measured; a message type is looked for exactly if its topic is measured and
/// has no subscriber; and exactly those of them come back that were not looked
/// for before. Buffers that were there stay as they are, new ones are empty.
pub proof fn measured_topics_are_followed<S>(
    before: EchoWorker<S>,
    states: Map<Seq<char>, EchoState>,
    desired: Seq<Seq<char>>,
    after: EchoWorker<S>,
    now: Map<Seq<char>, EchoState>,
    asked: Seq<Seq<char>>,
    t: Seq<char>,
)
    requires
        in_step(before.current@, before.pending@, states),
        before.is_changed_to(after, states, now, desired, asked),
    ensures
        in_step(after.current@, after.pending@, now),
        now.contains_key(t) <==> desired.contains(t),
        after.current@.contains_key(t) <==> desired.contains(t) && before.current@.contains_key(t),
        after.current@.contains_key(t) ==> after.current@[t] == before.current@[t],
        after.pending@.contains_key(t) <==> desired.contains(t) && !before.current@.contains_key(t),
        asked.contains(t) <==> desired.contains(t) && !before.current@.contains_key(t)
            && !before.pending@.contains_key(t),
        asked.no_duplicates(),
        desired.contains(t) && states.contains_key(t) ==> now[t] == states[t],
        desired.contains(t) && !states.contains_key(t) ==> {
            &&& now[t].topic matches Some(name) && name@ == t
            &&& now[t].shown().len() == 0
            &&& now[t].status is Discovering
            &&& now[t].msg_count == 0
            &&& now[t].message_type is None
            &&& now[t].last_update is None
        },
{
    measured_topics_are_echoed(before, states, desired, after, now, t);
    let wanted = desired.to_set();
    let kept = before.pending@.dom().intersect(wanted);
    let known = before.current@.dom().intersect(wanted).union(kept);
    assert(wanted.contains(t) <==> desired.contains(t));
    unknown_topics_are_looked_for(desired, known, t);
    looked_for_once(desired, known);
    assert(after.pending@.contains_key(t) <==> after.pending@.dom().contains(t));
    assert(!(before.current@.contains_key(t) && before.pending@.contains_key(t)));
    if desired.contains(t) && !states.contains_key(t) {
        assert(now[t].is_placeholder(t));
    }
}

/// What came of looking for a message type is told in the echo of that topic and
/// nowhere else, if the topic still has one: a subscriber and the type, after
/// which messages are waited for, or the error. Lines and count stay.
pub proof fn discoveries_are_told<S>(
    before: EchoWorker<S>,
    states: Map<Seq<char>, EchoState>,
    topic: Seq<char>,
    found: Result<(S, Option<String>), String>,
    after: EchoWorker<S>,
    now: Map<Seq<char>, EchoState>,
    t: Seq<char>,
)
    requires
        in_step(before.current@, before.pending@, states),
        before.is_informed(after, states, now, topic, found),
    ensures
        in_step(after.current@, after.pending@, now),
        !after.pending@.contains_key(topic),
        now.contains_key(t) <==> states.contains_key(t),
        t != topic ==> {
            &&& after.pending@.contains_key(t) <==> before.pending@.contains_key(t)
            &&& after.current@.contains_key(t) <==> before.current@.contains_key(t)
            &&& before.current@.contains_key(t) ==> after.current@[t] == before.current@[t]
            &&& states.contains_key(t) ==> now[t] == states[t]
        },
        !states.contains_key(topic) ==> !after.current@.contains_key(topic),
        states.contains_key(topic) ==> {
            &&& now[topic].shown() == states[topic].shown()
            &&& now[topic].msg_count == states[topic].msg_count
            &&& now[topic].topic == states[topic].topic
            &&& found matches Ok((sub, message_type)) ==> {
                &&& after.current@.contains_key(topic) && after.current@[topic] == sub
                &&& now[topic].message_type == message_type
                &&& states[topic].status is Discovering ==> now[topic].status is NoData
                &&& !(states[topic].status is Discovering) ==> now[topic].status
                    == states[topic].status
            }
            &&& found matches Err(e) ==> {
                &&& now[topic].status == echo::EchoStatus::Error(e)
                &&& now[topic].message_type == states[topic].message_type
                &&& after.current@ == before.current@
            }
        },
{
}

// ---------------------------------------------------------------------------
// Changes among the topics
// ---------------------------------------------------------------------------

/// Announced are the topics that were not there, in their order and with their
/// message types; after them the names that are there no more, in their order.
pub proof fn changes_are_told_in_order(
    last: Map<Seq<char>, String>,
    names: Seq<Seq<char>>,
    topics: Seq<Topic>,
)
    ensures
        engine::changes_between(last, names, topics) == topics.filter(
            |t: Topic| !last.contains_key(t.name@),
        ).map_values(|t: Topic| engine::Change::Discovered(t.name@, t.message_type@))
            + names.filter(|n: Seq<char>| !engine::is_topic(topics, n)).map_values(
            |n: Seq<char>| engine::Change::Removed(n),
        ),
{
    appeared_in_order(last, topics);
    vanished_in_order(names, topics);
}

proof fn appeared_in_order(last: Map<Seq<char>, String>, topics: Seq<Topic>)
    ensures
        engine::appeared(last, topics) == topics.filter(
            |t: Topic| !last.contains_key(t.name@),
        ).map_values(|t: Topic| engine::Change::Discovered(t.name@, t.message_type@)),
    decreases topics.len(),
{
    reveal(Seq::filter);
    let f = |t: Topic| !last.contains_key(t.name@);
    let g = |t: Topic| engine::Change::Discovered(t.name@, t.message_type@);
    if topics.len() > 0 {
        appeared_in_order(last, topics.drop_last());
        let before = topics.drop_last().filter(f);
        assert(before.push(topics.last()).map_values(g) =~= before.map_values(g).push(
            g(topics.last()),
        ));
    }
    assert(engine::appeared(last, topics) =~= topics.filter(f).map_values(g));
}

proof fn vanished_in_order(names: Seq<Seq<char>>, topics: Seq<Topic>)
    ensures
        engine::vanished(names, topics) == names.filter(
            |n: Seq<char>| !engine::is_topic(topics, n),
        ).map_values(|n: Seq<char>| engine::Change::Removed(n)),
    decreases names.len(),
{
    reveal(Seq::filter);
    let f = |n: Seq<char>| !engine::is_topic(topics, n);
    let g = |n: Seq<char>| engine::Change::Removed(n);
    if names.len() > 0 {
        vanished_in_order(names.drop_last(), topics);
        let before = names.drop_last().filter(f);
        assert(before.push(names.last()).map_values(g) =~= before.map_values(g).push(
            g(names.last()),
        ));
    }
    assert(engine::vanished(names, topics) =~= names.filter(f).map_values(g));
}

/// Of the topics of one name the last one's message type is kept.
pub proof fn last_of_a_name_counts(topics: Seq<Topic>, i: int)
    requires
        0 <= i < topics.len(),
        forall|k: int| i < k < topics.len() ==> (#[trigger] topics[k]).name@ != topics[i].name@,
    ensures
        engine::by_name(topics).contains_key(topics[i].name@),
        engine::by_name(topics)[topics[i].name@] == topics[i].message_type,
    decreases topics.len(),
{
    if i < topics.len() - 1 {
        assert(topics.drop_last()[i] == topics[i]);
        assert(topics[topics.len() - 1].name@ != topics[i].name@);
        last_of_a_name_counts(topics.drop_last(), i);
    }
}

/// Looking again at the same topics tells of no change.
pub proof fn no_change_is_told_twice(names: Seq<Seq<char>>, topics: Seq<Topic>)
    requires
        forall|k: int|
            0 <= k < names.len() ==> engine::by_name(topics).contains_key(#[trigger] names[k]),
    ensures
        engine::changes_between(engine::by_name(topics), names, topics) == Seq::<
            engine::Change,
        >::empty(),
{
    all_are_known(engine::by_name(topics), topics, topics);
    all_are_there(names, topics, names.len());
    assert(names.take(names.len() as int) =~= names);
    assert(engine::changes_between(engine::by_name(topics), names, topics) =~= Seq::<
        engine::Change,
    >::empty());
}

proof fn all_are_known(last: Map<Seq<char>, String>, some: Seq<Topic>, topics: Seq<Topic>)
    requires
        last == engine::by_name(topics),
        some.is_prefix_of(topics),
    ensures
        engine::appeared(last, some) == Seq::<engine::Change>::empty(),
    decreases some.len(),
{
    if some.len() > 0 {
        let n = some.len() - 1;
        assert(some.drop_last() =~= topics.subrange(0, n));
        assert(topics.subrange(0, some.len() as int)[n] == topics[n]);
        assert(some.last() == topics[n]);
        all_are_known(last, some.drop_last(), topics);
        known_topics_are_those_there(topics, some.last().name@);
        assert(engine::is_topic(topics, topics[n].name@));
    }
}

proof fn all_are_there(names: Seq<Seq<char>>, topics: Seq<Topic>, n: nat)
    requires
        n <= names.len(),
        forall|k: int|
            0 <= k < names.len() ==> engine::by_name(topics).contains_key(#[trigger] names[k]),
    ensures
        engine::vanished(names.take(n as int), topics) == Seq::<engine::Change>::empty(),
    decreases n,
{
    if n > 0 {
        let k = (n - 1) as nat;
        all_are_there(names, topics, k);
        assert(names.take(n as int).drop_last() =~= names.take(k as int));
        assert(names.take(n as int).last() == names[k as int]);
        known_topics_are_those_there(topics, names[k as int]);
        assert(engine::by_name(topics).contains_key(names[k as int]));
    }
}

// ---------------------------------------------------------------------------
// Message types
// ---------------------------------------------------------------------------

/// The type of a topic is the first that is known: among its publishers if any
/// of them tells one, else among its subscriptions.
pub proof fn first_known_type_counts(
    publishers: Seq<Option<engine::TypeInfo>>,
    subscriptions: Seq<Option<engine::TypeInfo>>,
    i: int,
)
    ensures
        0 <= i < publishers.len() && publishers[i] is Some && (forall|j: int|
            0 <= j < i ==> (#[trigger] publishers[j]) is None) ==> engine::topic_type(
            publishers,
            subscriptions,
        ) == publishers[i],
        0 <= i < subscriptions.len() && subscriptions[i] is Some && (forall|j: int|
            0 <= j < i ==> (#[trigger] subscriptions[j]) is None) && (forall|j: int|
            0 <= j < publishers.len() ==> (#[trigger] publishers[j]) is None)
            ==> engine::topic_type(publishers, subscriptions) == subscriptions[i],
        (forall|j: int| 0 <= j < publishers.len() ==> (#[trigger] publishers[j]) is None) && (
        forall|j: int| 0 <= j < subscriptions.len() ==> (#[trigger] subscriptions[j]) is None)
            ==> engine::topic_type(publishers, subscriptions) is None,
{
    first_one(publishers, i);
    first_one(subscriptions, i);
}

proof fn first_one(types: Seq<Option<engine::TypeInfo>>, i: int)
    ensures
        0 <= i < types.len() && types[i] is Some && (forall|j: int|
            0 <= j < i ==> (#[trigger] types[j]) is None) ==> engine::first_type(types) == types[i],
        (forall|j: int| 0 <= j < types.len() ==> (#[trigger] types[j]) is None)
            ==> engine::first_type(types) is None,
    decreases types.len(),
{
    if types.len() > 0 {
        let before = types.drop_last();
        let n = types.len() - 1;
        assert(forall|j: int| 0 <= j < n ==> #[trigger] types[j] == before[j]);
        assert(types[n] == types.last());
        first_one(before, i);
        first_one(before, n);
    }
}

/// A topic is subscribed to with the schema that was loaded and the hash of the
/// type that was found. Wherever a step brings nothing, the type is asked for;
/// the work is done only once there is a subscription.
pub proof fn echo_falls_back_to_asking(
    found: Option<engine::TypeInfo>,
    info: engine::TypeInfo,
    schema: Option<Arc<MessageSchema>>,
    subscribed: bool,
)
    ensures
        match found {
            Some(t) => engine::step_after_lookup(found) matches engine::EchoStep::LoadSchema(u) && u
                == t,
            None => engine::step_after_lookup(found) is Discover,
        },
        match schema {
            Some(s) => engine::step_after_load(info, schema) matches engine::EchoStep::Subscribe {
                schema: used,
                hash,
            } && used == s && hash == info.hash,
            None => engine::step_after_load(info, schema) is Discover,
        },
        engine::step_after_subscribe(subscribed) is Done <==> subscribed,
        engine::step_after_subscribe(subscribed) is Discover <==> !subscribed,
{
}

// ---------------------------------------------------------------------------
// The session
// ---------------------------------------------------------------------------

/// Different domains have different liveliness patterns where the backend tells
/// them apart; the pattern names the domain and ends with a wildcard.
pub proof fn domains_have_their_patterns(a: usize, b: usize)
    ensures
        engine::Backend::RmwZenoh.pattern(a) == engine::Backend::RmwZenoh.pattern(b) <==> a == b,
        text::begins_with(
            engine::Backend::RmwZenoh.pattern(a),
            "@ros2_lv/"@ + text::decimal(a as nat) + "/"@,
        ),
        text::finishes_with(engine::Backend::RmwZenoh.pattern(a), "/**"@),
        engine::Backend::Ros2Dds.pattern(a) == "@/*/@ros2_lv/**"@,
{
    let x = text::decimal(a as nat);
    let y = text::decimal(b as nat);
    let p = engine::Backend::RmwZenoh.pattern(a);
    let q = engine::Backend::RmwZenoh.pattern(b);
    let head = "@ros2_lv/"@;
    let tail = "/**"@;
    reveal_strlit("/**");
    reveal_strlit("/");
    assert(p.subrange(head.len() as int, p.len() - tail.len()) =~= x);
    assert(q.subrange(head.len() as int, q.len() - tail.len()) =~= y);
    text_laws::decimal_reads_back(a as nat);
    text_laws::decimal_reads_back(b as nat);
    assert(p =~= (head + x + "/"@) + tail.skip(1));
    text_laws::beginnings(p, head + x + "/"@, tail.skip(1));
    text_laws::endings(p, tail, head + x);
}

/// A session is a client that connects to the given router and to no other, and
/// looks for none by itself.
pub proof fn sessions_connect_to_their_router(a: Seq<char>, b: Seq<char>)
    ensures
        engine::settings_for(a).len() == 3,
        engine::settings_for(a)[0] == ("mode"@, "\"client\""@),
        engine::settings_for(a)[1].0 == "connect/endpoints"@,
        engine::settings_for(a)[1].1 == "[\""@ + a + "\"]"@,
        engine::settings_for(a)[2] == ("scouting/multicast/enabled"@, "false"@),
        engine::settings_for(a) == engine::settings_for(b) ==> a == b,
{
    if engine::settings_for(a) == engine::settings_for(b) {
        let p = engine::settings_for(a)[1].1;
        let q = engine::settings_for(b)[1].1;
        let n = "[\""@.len() as int;
        let m = "\"]"@.len();
        assert(p == q);
        assert(p.subrange(n, p.len() - m) =~= a);
        assert(q.subrange(n, q.len() - m) =~= b);
    }
}

/// What is said of a failed start ends with the cause, and tells a session that
/// failed from a context that failed.
pub proof fn failed_starts_tell_their_cause(cause: Seq<char>, other: Seq<char>)
    ensures
        text::finishes_with(engine::startup_complaint(engine::Startup::Session, cause), cause),
        text::finishes_with(engine::startup_complaint(engine::Startup::Context, cause), cause),
        engine::startup_complaint(engine::Startup::Session, cause) != engine::startup_complaint(
            engine::Startup::Context,
            other,
        ),
{
    reveal_strlit("Failed to initialize Zenoh session: ");
    reveal_strlit("Failed to create ROS context: ");
    let a = engine::startup_complaint(engine::Startup::Session, cause);
    let b = engine::startup_complaint(engine::Startup::Context, other);
    text_laws::endings(a, cause, "Failed to initialize Zenoh session: "@);
    text_laws::endings(b, cause, "Failed to create ROS context: "@);
    assert(a[10] == 'i' && b[10] == 'c');
}

// ---------------------------------------------------------------------------
// Logging
// ---------------------------------------------------------------------------

/// Log lines go to the file exactly while the terminal is drawn on and the file
/// is there; they are coloured only where people read them, on a terminal that
/// is not drawn on. A notice is given exactly while the terminal is drawn on,
/// and names the file and, where it could not be opened, the reason.
pub proof fn logging_keeps_off_the_screen(
    json_mode: bool,
    tui: bool,
    failure: Option<String>,
    p: LogPlan,
)
    requires
        logger::is_log_plan(json_mode, tui, failure, p),
    ensures
        p.target is File <==> tui && failure is None,
        p.ansi ==> !tui && p.format is Compact && p.target is Stderr,
        !tui && !json_mode ==> p.ansi,
        p.format is Json <==> json_mode,
        p.notice is Some <==> tui,
        p.notice matches Some(s) ==> text::occurs_in(s@, "hiroz-console.log"@),
        tui && failure is Some ==> text::occurs_in(p.notice->0@, failure->0@),
{
    let file = "hiroz-console.log"@;
    if tui {
        match failure {
            None => {
                let head = "hiroz-console: logging to "@;
                text_laws::occurs_in_the_middle(head, file, seq![]);
                assert(head + file + seq![] =~= head + file);
            },
            Some(e) => {
                let head = "hiroz-console: could not open "@;
                let rest = " ("@ + e@ + "); logging to stderr"@;
                text_laws::occurs_in_the_middle(head, file, rest);
                text_laws::occurs_in_the_middle(
                    head + file + " ("@,
                    e@,
                    "); logging to stderr"@,
                );
                assert((head + file + " ("@) + e@ + "); logging to stderr"@ =~= head + file + rest);
            },
        }
    }
}

/// Without a filter from the environment, debugging logs more of both than the
/// plain default does.
pub proof fn debugging_logs_more()
    ensures
        text::occurs_in(logger::directives(true), "hiroz=debug"@),
        text::occurs_in(logger::directives(true), "zenoh=debug"@),
        text::occurs_in(logger::directives(false), "hiroz=info"@),
        text::occurs_in(logger::directives(false), "zenoh=warn"@),
{
    reveal_strlit("hiroz=debug,zenoh=debug");
    reveal_strlit("hiroz=info,zenoh=warn");
    reveal_strlit("hiroz=debug");
    reveal_strlit("zenoh=debug");
    reveal_strlit("hiroz=info");
    reveal_strlit("zenoh=warn");
    assert("hiroz=debug,zenoh=debug"@.subrange(0, 11) =~= "hiroz=debug"@);
    assert("hiroz=debug,zenoh=debug"@.subrange(12, 23) =~= "zenoh=debug"@);
    assert("hiroz=info,zenoh=warn"@.subrange(0, 10) =~= "hiroz=info"@);
    assert("hiroz=info,zenoh=warn"@.subrange(11, 21) =~= "zenoh=warn"@);
    assert(text::occurs_at(logger::directives(true), "hiroz=debug"@, 0));
    assert(text::occurs_at(logger::directives(true), "zenoh=debug"@, 12));
    assert(text::occurs_at(logger::directives(false), "hiroz=info"@, 0));
    assert(text::occurs_at(logger::directives(false), "zenoh=warn"@, 11));
}

/// A session is connected exactly if it has a router.
pub proof fn one_router_is_enough(routers: usize)
    ensures
        !engine::connected(0),
        routers >= 1 ==> engine::connected(routers),
{
}

/// An event tells the topic that it is about, and of a new topic its type.
pub proof fn events_tell_their_topic(e: engine::TopicEvent)
    ensures
        match e {
            engine::TopicEvent::Discovered { topic, message_type } => e@
                == engine::Change::Discovered(topic@, message_type@),
            engine::TopicEvent::Removed { topic } => e@ == engine::Change::Removed(topic@),
        },
{
}

} // verus!
