//! What holds of everything the Measure tab shows.

use crate::console::echo::{EchoState, EchoStatus};
use crate::console::laws;
use crate::console::measure;
use crate::console::measure::{
    App, Chart, EchoBody, EchoPanel, EchoWindow, FocusPane, MeasureRow, MeasurementPanel, Tint,
};
use crate::text;
use crate::text_laws;
use vstd::prelude::*;

verus! {

// ---------------------------------------------------------------------------
// The list and the panel
// ---------------------------------------------------------------------------

/// The mark, the name and the rate together fill the width of the list, where
/// there is room for all; where there is none, none is left for the name.
pub proof fn names_get_the_room_that_is_left(list_width: int, rate_width: int)
    requires
        0 <= list_width,
        0 <= rate_width,
    ensures
        0 <= measure::name_width(list_width, rate_width) <= list_width,
        2 + rate_width <= list_width ==> 2 + measure::name_width(list_width, rate_width)
            + rate_width == list_width,
        2 + rate_width >= list_width ==> measure::name_width(list_width, rate_width) == 0,
{
}

/// The rate of a topic is shown in hertz; of a topic without one nothing is.
pub proof fn rates_are_in_hertz(rate: Option<String>)
    ensures
        rate is None <==> measure::rate_text(rate).len() == 0,
        rate matches Some(hz) ==> {
            &&& text::occurs_in(measure::rate_text(rate), hz@)
            &&& text::finishes_with(measure::rate_text(rate), " Hz"@)
            &&& measure::rate_text(rate).len() == 1 + hz@.len() + 3
        },
{
    reveal_strlit(" ");
    reveal_strlit(" Hz");
    if let Some(hz) = rate {
        text_laws::occurs_in_the_middle(" "@, hz@, " Hz"@);
        text_laws::endings(measure::rate_text(rate), " Hz"@, " "@ + hz@);
    }
}

/// At most one row of the list is marked as selected, and it is the one at the
/// selected place.
pub proof fn one_row_is_selected<F: Fn(&str, usize) -> String>(
    app: App,
    i: int,
    topic: Seq<char>,
    rate: Option<String>,
    list_width: usize,
    truncate: F,
    row: MeasureRow,
)
    requires
        measure::is_row(app, i, topic, rate, list_width, truncate, row),
    ensures
        row.selected <==> i == app.measure_selected_index,
        rate is None ==> row.rate@.len() == 0,
        rate matches Some(hz) ==> text::occurs_in(row.rate@, hz@),
{
    rates_are_in_hertz(rate);
}

/// The panel is about the selected topic: it shows charts exactly if there are
/// measurements of that topic. It shows help exactly if no topic is measured.
pub proof fn panel_is_about_the_selected_topic(
    topics: Seq<Seq<char>>,
    i: int,
    measured: Set<Seq<char>>,
    p: MeasurementPanel,
)
    requires
        0 <= i,
        measure::is_panel(topics, i, measured, p),
    ensures
        p is Empty <==> topics.len() == 0,
        p is Blank <==> topics.len() > 0 && i >= topics.len(),
        p is Charts <==> i < topics.len() && measured.contains(topics[i]),
        p is Waiting <==> i < topics.len() && !measured.contains(topics[i]),
        p matches MeasurementPanel::Charts(t) ==> t@ == topics[i],
        p matches MeasurementPanel::Waiting(t) ==> t@ == topics[i],
{
}

// ---------------------------------------------------------------------------
// Wrapping
// ---------------------------------------------------------------------------

/// Lines are wrapped one after the other, each on its own.
pub proof fn lines_are_wrapped_on_their_own(
    before: Seq<Seq<char>>,
    line: Seq<char>,
    after: Seq<Seq<char>>,
    width: int,
)
    ensures
        measure::wrapped(before + seq![line] + after, width) == measure::wrapped(before, width)
            + measure::chunks(line, width) + measure::wrapped(after, width),
        measure::wrapped(Seq::empty(), width).len() == 0,
{
    wrapped_both(before + seq![line], after, width);
    wrapped_both(before, seq![line], width);
    assert(seq![line].drop_last() =~= Seq::<Seq<char>>::empty());
    assert(measure::wrapped(seq![line].drop_last(), width) =~= Seq::<Seq<char>>::empty());
    assert(measure::wrapped(seq![line], width) =~= measure::chunks(line, width));
}

proof fn wrapped_both(a: Seq<Seq<char>>, b: Seq<Seq<char>>, width: int)
    ensures
        measure::wrapped(a + b, width) == measure::wrapped(a, width) + measure::wrapped(b, width),
    decreases b.len(),
{
    if b.len() == 0 {
        assert(a + b =~= a);
        assert(measure::wrapped(a, width) + measure::wrapped(b, width) =~= measure::wrapped(
            a,
            width,
        ));
    } else {
        wrapped_both(a, b.drop_last(), width);
        assert((a + b).drop_last() =~= a + b.drop_last());
        assert((a + b).last() == b.last());
        assert(measure::wrapped(a + b, width) =~= measure::wrapped(a, width) + measure::wrapped(
            b,
            width,
        ));
    }
}

/// Wrapping all lines loses nothing: no row is longer than the width, there is a
/// row for every line, and one behind the other the rows are the lines.
pub proof fn wrapping_keeps_all_lines(lines: Seq<Seq<char>>, width: int)
    requires
        width > 0,
    ensures
        laws::joined(measure::wrapped(lines, width)) == laws::joined(lines),
        measure::wrapped(lines, width).len() >= lines.len(),
        forall|i: int|
            0 <= i < measure::wrapped(lines, width).len() ==> (#[trigger] measure::wrapped(
                lines,
                width,
            )[i]).len() <= width,
    decreases lines.len(),
{
    if lines.len() > 0 {
        let before = lines.drop_last();
        let rows = measure::chunks(lines.last(), width);
        wrapping_keeps_all_lines(before, width);
        laws::wrapping_keeps_the_line(lines.last(), width);
        laws::wrapped_rows_fit(lines.last(), width);
        joined_both(measure::wrapped(before, width), rows);
        joined_both(before, seq![lines.last()]);
        assert(before + seq![lines.last()] =~= lines);
        assert(seq![lines.last()].drop_first() =~= Seq::<Seq<char>>::empty());
        assert(laws::joined(seq![lines.last()].drop_first()) =~= Seq::<char>::empty());
        assert(laws::joined(seq![lines.last()]) =~= lines.last());
    }
}

proof fn joined_both(a: Seq<Seq<char>>, b: Seq<Seq<char>>)
    ensures
        laws::joined(a + b) == laws::joined(a) + laws::joined(b),
    decreases a.len(),
{
    if a.len() == 0 {
        assert(a + b =~= b);
        assert(laws::joined(a) + laws::joined(b) =~= laws::joined(b));
    } else {
        joined_both(a.drop_first(), b);
        assert((a + b).drop_first() =~= a.drop_first() + b);
        assert(laws::joined(a + b) =~= laws::joined(a) + laws::joined(b));
    }
}

// ---------------------------------------------------------------------------
// The echo
// ---------------------------------------------------------------------------

/// The border is red exactly on an error; without one it shows where keys go.
pub proof fn border_shows_errors_and_focus(status: EchoStatus, focus: FocusPane)
    ensures
        measure::echo_border(status, focus) == Tint::Red <==> status is Error,
        measure::echo_border(status, focus) == Tint::Cyan <==> !(status is Error) && focus is Detail,
        measure::echo_border(status, focus) == Tint::DarkGray <==> !(status is Error)
            && focus is List,
{
}

/// Messages are shown exactly while they come in. Otherwise a word says why
/// there are none: the topic whose type is looked for, the type whose messages
/// are waited for, or the error.
pub proof fn words_stand_for_messages(st: EchoState)
    ensures
        measure::echo_word(st) is None <==> st.status is Active,
        st.status is Discovering && st.topic is Some ==> text::begins_with(
            measure::echo_word(st)->0,
            st.topic->0@,
        ),
        st.status is NoData && st.message_type is Some ==> text::begins_with(
            measure::echo_word(st)->0,
            st.message_type->0@,
        ),
        st.status matches EchoStatus::Error(e) ==> text::occurs_in(measure::echo_word(st)->0, e@),
{
    match st.status {
        EchoStatus::Discovering => {
            text_laws::beginnings(
                seq![],
                measure::or_blank(st.topic),
                "\n\nDiscovering message schema..."@,
            );
        },
        EchoStatus::NoData => {
            text_laws::beginnings(
                seq![],
                measure::or_blank(st.message_type),
                "\n\nWaiting for messages..."@,
            );
        },
        EchoStatus::Error(e) => {
            text_laws::occurs_in_the_middle(
                "Unable to echo this topic:\n  "@,
                e@,
                "\n\nNo type description service and no local .msg definition ($AMENT_PREFIX_PATH) for this type."@,
            );
        },
        _ => {},
    }
}

/// What is hidden and what is seen make up all rows, and nothing is hidden that
/// fits.
pub proof fn hidden_and_seen_are_all(total: int, height: int)
    requires
        0 <= total,
        0 <= height,
    ensures
        0 <= measure::hidden_rows(total, height) <= total,
        total > height ==> measure::hidden_rows(total, height) + height == total,
        total <= height ==> measure::hidden_rows(total, height) == 0,
{
}

/// A frame takes a row and a column on each side, and leaves at least one
/// column.
pub proof fn frames_take_both_sides(width: u16, height: u16)
    ensures
        height >= 2 ==> measure::inside_rows(height) + 2 == height,
        height < 2 ==> measure::inside_rows(height) == 0,
        width >= 3 ==> measure::inside_columns(width) + 2 == width,
        measure::inside_columns(width) >= 1,
{
}

/// The window shows rows that follow each other, from the first on and as many
/// as there are and fit. Its title names the topic, the last row that is seen,
/// how many there are, how many messages came, and whether it follows them. It
/// can be scrolled exactly if not all rows fit.
pub proof fn windows_show_what_fits(
    st: EchoState,
    width: int,
    height: int,
    follow: bool,
    first: int,
    w: EchoWindow,
    k: int,
)
    requires
        measure::is_window(st, width, height, follow, first, w),
        0 <= height,
    ensures
        ({
            let all = measure::wrapped(st.shown(), width);
            let rows = text::texts(w.rows@);
            let last = first + rows.len();
            &&& rows.len() <= height
            &&& rows.len() == height || last == all.len()
            &&& 0 <= k < rows.len() ==> rows[k] == all[first + k]
            &&& w.scrollbar is Some <==> all.len() > height
            &&& w.scrollbar matches Some((length, position)) ==> length + height == all.len()
                && position == first
            &&& text::occurs_in(w.title@, measure::or_blank(st.topic))
            &&& text::occurs_in(
                w.title@,
                text::decimal(last as nat) + "/"@ + text::decimal(all.len() as nat),
            )
            &&& text::occurs_in(w.title@, "msgs:"@ + text::decimal(st.msg_count as nat))
            &&& text::occurs_in(
                w.title@,
                if follow {
                    "live"@
                } else {
                    "scroll"@
                },
            )
        }),
{
    let all = measure::wrapped(st.shown(), width);
    let rows = text::texts(w.rows@);
    let last = first + rows.len();
    titles_name_all(
        measure::or_blank(st.topic),
        text::decimal(last as nat),
        text::decimal(all.len() as nat),
        text::decimal(st.msg_count as nat),
        if follow {
            "live"@
        } else {
            "scroll"@
        },
    );
}

proof fn titles_name_all(
    topic: Seq<char>,
    end: Seq<char>,
    total: Seq<char>,
    count: Seq<char>,
    mode: Seq<char>,
)
    ensures
        ({
            let s = " Echo: "@ + topic + " ["@ + end + "/"@ + total + " msgs:"@ + count + " "@ + mode
                + "] "@;
            &&& text::occurs_in(s, topic)
            &&& text::occurs_in(s, end + "/"@ + total)
            &&& text::occurs_in(s, "msgs:"@ + count)
            &&& text::occurs_in(s, mode)
        }),
{
    let s = " Echo: "@ + topic + " ["@ + end + "/"@ + total + " msgs:"@ + count + " "@ + mode
        + "] "@;
    assert(" msgs:"@ == " "@ + "msgs:"@) by {
        reveal_strlit(" msgs:");
        reveal_strlit(" ");
        reveal_strlit("msgs:");
        assert(" msgs:"@ =~= " "@ + "msgs:"@);
    }
    let a = " Echo: "@ + topic + " ["@;
    let b = a + (end + "/"@ + total) + " "@;
    let c = b + ("msgs:"@ + count) + " "@;
    regrouped(a, end, "/"@, total, " "@, "msgs:"@, count);
    assert(s == c + mode + "] "@);
    text_laws::occurs_in_the_middle(c, mode, "] "@);
    text_laws::occurs_in_the_middle(b, "msgs:"@ + count, " "@);
    occurs_before(c, "msgs:"@ + count, mode, "] "@);
    text_laws::occurs_in_the_middle(a, end + "/"@ + total, " "@);
    occurs_before(b, end + "/"@ + total, "msgs:"@ + count, " "@);
    occurs_before(c, end + "/"@ + total, mode, "] "@);
    text_laws::occurs_in_the_middle(" Echo: "@, topic, " ["@);
    occurs_before(a, topic, end + "/"@ + total, " "@);
    occurs_before(b, topic, "msgs:"@ + count, " "@);
    occurs_before(c, topic, mode, "] "@);
}

proof fn regrouped(
    a: Seq<char>,
    b: Seq<char>,
    c: Seq<char>,
    d: Seq<char>,
    e: Seq<char>,
    f: Seq<char>,
    g: Seq<char>,
)
    ensures
        a + b + c + d + (e + f) + g == a + (b + c + d) + e + (f + g),
{
    assert(a + b + c + d + (e + f) + g =~= a + (b + c + d) + e + (f + g));
}

proof fn occurs_before(s: Seq<char>, part: Seq<char>, next: Seq<char>, end: Seq<char>)
    requires
        text::occurs_in(s, part),
    ensures
        text::occurs_in(s + next + end, part),
{
    text_laws::occurs_in_the_middle(seq![], s, next + end);
    assert(seq![] + s + (next + end) =~= s + next + end);
    text_laws::occurrence_is_transitive(s + next + end, s, part);
}

/// While an echo is shown, its window fits the frame, and following it shows the
/// newest row. A word in its place leaves the scrolling as it stands. The border
/// is red exactly on an error.
pub proof fn echo_panels_fit_their_frame(
    before: App,
    after: App,
    st: EchoState,
    width: u16,
    height: u16,
    p: EchoPanel,
)
    requires
        before.is_echo_panel(after, st, width, height, p),
    ensures
        p.body is Window <==> st.status is Active,
        p.border == Tint::Red <==> st.status is Error,
        after.echo_viewport + 2 == height || (after.echo_viewport == 0 && height < 2),
        p.body is Status ==> after.echo_scroll == before.echo_scroll && after.echo_follow
            == before.echo_follow,
        p.body matches EchoBody::Window(w) ==> {
            let all = measure::wrapped(st.shown(), measure::inside_columns(width));
            let rows = text::texts(w.rows@);
            &&& rows.len() <= after.echo_viewport
            &&& before.echo_follow ==> after.echo_follow
            &&& after.echo_follow && rows.len() > 0 ==> rows.last() == all.last()
            &&& after.echo_follow <==> after.echo_scroll + after.echo_viewport >= all.len()
            &&& !after.echo_follow ==> after.echo_scroll == before.echo_scroll
            &&& !before.echo_follow && before.echo_scroll + after.echo_viewport < all.len()
                ==> !after.echo_follow
        },
{
    words_stand_for_messages(st);
}

// ---------------------------------------------------------------------------
// Charts
// ---------------------------------------------------------------------------

/// No value is greater than the greatest, which is one of the values or one.
pub proof fn greatest_is_a_value(data: Seq<u64>)
    ensures
        measure::greatest(data) >= 1,
        forall|i: int| 0 <= i < data.len() ==> #[trigger] data[i] <= measure::greatest(data),
        data.contains(measure::greatest(data)) || measure::greatest(data) == 1,
    decreases data.len(),
{
    if data.len() > 0 {
        let before = data.drop_last();
        greatest_is_a_value(before);
        assert(forall|i: int| 0 <= i < before.len() ==> #[trigger] data[i] == before[i]);
        assert(data[data.len() - 1] == data.last());
        if before.contains(measure::greatest(before)) {
            let i = before.index_of(measure::greatest(before));
            assert(data[i] == measure::greatest(before));
        }
    }
}

/// A chart waits exactly while there are no values. Otherwise all values are
/// within its scale, and only those of a rate in kilobytes are ten times what
/// they stand for.
pub proof fn charts_hold_their_values(data: Seq<u64>, title: Seq<char>, c: Chart)
    requires
        measure::is_chart(data, title, c),
    ensures
        c is Waiting <==> data.len() == 0,
        c matches Chart::Values { max, scale } ==> {
            &&& max >= 1
            &&& forall|i: int| 0 <= i < data.len() ==> #[trigger] data[i] <= max
            &&& data.contains(max) || max == 1
            &&& text::occurs_in(title, "KB/s"@) ==> scale == 10
            &&& !text::occurs_in(title, "KB/s"@) ==> scale == 1
        },
{
    greatest_is_a_value(data);
}

/// An axis is as wide as it is asked to be, from two columns on, with a corner at
/// each end. Between them a tick stands at each whole number of ten seconds, on
/// narrow axes of fifteen, but not in the first column.
pub proof fn axes_have_their_width_and_ticks(width: usize, seconds: Seq<usize>, i: int)
    requires
        width >= 2,
        0 <= i < width - 2,
    ensures
        ({
            let a = measure::axis(width, seconds);
            let between: int = if width > 60 {
                10
            } else {
                15
            };
            &&& a.len() == width
            &&& a[0] == '└'
            &&& a[width - 1] == '┘'
            &&& a[i + 1] == '┴' <==> i > 0 && seconds[i] as int % between == 0
            &&& a[i + 1] == '─' <==> i == 0 || seconds[i] as int % between != 0
        }),
{
}

/// The labels of an axis are how far it goes back, in seconds, at its start and
/// the word for the present at its end, with nothing but space between them.
pub proof fn labels_stand_at_both_ends(width: usize, history: usize)
    ensures
        ({
            let s = measure::axis_labels(width, history);
            let head = " "@ + text::decimal(history as nat) + "s"@;
            &&& text::begins_with(s, head)
            &&& text::finishes_with(s, "now"@)
            &&& s.len() == head.len() + (if width < 8 {
                0
            } else {
                width - 8
            }) + 3
            &&& forall|i: int| head.len() <= i < s.len() - 3 ==> #[trigger] s[i] == ' '
        }),
{
    let s = measure::axis_labels(width, history);
    let head = " "@ + text::decimal(history as nat) + "s"@;
    let n: int = if width < 8 {
        0
    } else {
        width - 8
    };
    reveal_strlit("now");
    assert(s =~= head + (measure::spaces(n) + "now"@));
    text_laws::beginnings(s, head, measure::spaces(n) + "now"@);
    assert(s =~= (head + measure::spaces(n)) + "now"@);
    text_laws::endings(s, "now"@, head + measure::spaces(n));
}

/// The title of a panel has space on both sides.
pub proof fn titles_have_room(title: Seq<char>)
    ensures
        measure::panel_title(title).len() == title.len() + 2,
        measure::panel_title(title)[0] == ' ',
        measure::panel_title(title).last() == ' ',
        measure::panel_title(title).subrange(1, 1 + title.len() as int) == title,
{
    reveal_strlit(" ");
    assert(measure::panel_title(title).subrange(1, 1 + title.len() as int) =~= title);
}

} // verus!
