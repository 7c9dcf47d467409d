//! What the Measure tab shows.

use crate::console::echo::{EchoState, EchoStatus};
use crate::names;
use crate::names::NameMap;
use crate::text;
use crate::text::{chars_of, contains_part, decimal_text, join2, join3, slice_text};
use std::collections::VecDeque;
use vstd::prelude::*;
use vstd::string::*;

verus! {

/// The pane that keys go to.
#[derive(Clone, Copy, PartialEq, Eq, Structural, Debug)]
pub enum FocusPane {
    List,
    Detail,
}

/// What the Measure tab is about.
pub struct App {
    /// The measured topics.
    pub measuring_topics: NameMap<()>,
    /// The place of the selected topic in the sorted list.
    pub measure_selected_index: usize,
    pub focus_pane: FocusPane,
    /// How many rows of the echo can be seen.
    pub echo_viewport: usize,
    /// The first row of the echo that is seen.
    pub echo_scroll: usize,
    /// Whether the newest row of the echo stays in sight.
    pub echo_follow: bool,
}

// ---------------------------------------------------------------------------
// Topics
// ---------------------------------------------------------------------------

impl App {
    /// The measured topics, in ascending order.
    pub fn get_sorted_measuring_topics(&self) -> (v: Vec<String>)
        ensures
            names::ascending(text::texts(v@)),
            text::texts(v@).to_set() == self.measuring_topics@.dom(),
            text::texts(v@) == self.measuring_topics.keys(),
    {
        self.measuring_topics.key_list()
    }
}

/// A row of the list of measured topics.
pub struct MeasureRow {
    pub selected: bool,
    /// The topic, as far as there is room for it.
    pub name: String,
    /// The rate, or nothing.
    pub rate: String,
}

/// The rate, as it is shown.
pub open spec fn rate_text(rate: Option<String>) -> Seq<char> {
    match rate {
        Some(hz) => " "@ + hz@ + " Hz"@,
        None => Seq::empty(),
    }
}

/// The room for a topic's name: what the mark before it and the rate, of
/// `rate_width` bytes, leave of the list's width.
pub open spec fn name_width(list_width: int, rate_width: int) -> int {
    if list_width < 2 + rate_width {
        0
    } else {
        list_width - 2 - rate_width
    }
}

/// `row` is the row of the topic `topic`, at the place `i` of the list.
pub open spec fn is_row<F: Fn(&str, usize) -> String>(
    app: App,
    i: int,
    topic: Seq<char>,
    rate: Option<String>,
    list_width: usize,
    truncate: F,
    row: MeasureRow,
) -> bool {
    &&& row.selected == (i == app.measure_selected_index)
    &&& row.rate@ == rate_text(rate)
    &&& exists|name: &str, width: usize|
        {
            &&& name@ == topic
            &&& width == name_width(list_width as int, (vstd::utf8::encode_utf8(row.rate@).len() as usize) as int)
            &&& #[trigger] call_ensures(truncate, (name, width), row.name)
        }
}

impl App {
    /// The rows of the list of measured topics. `rates` holds the rate of each
    /// topic, as a number with one decimal, as far as it is known; `truncate`
    /// cuts a text to a width.
    pub fn render_measure_list_items<F: Fn(&str, usize) -> String>(
        &self,
        list_width: usize,
        rates: &Vec<Option<String>>,
        truncate: &F,
    ) -> (rows: Vec<MeasureRow>)
        requires
            rates@.len() == self.measuring_topics.keys().len(),
            forall|s: &str, n: usize| #[trigger] call_requires(*truncate, (s, n)),
        ensures
            rows@.len() == self.measuring_topics.keys().len(),
            forall|i: int|
                0 <= i < rows@.len() ==> is_row(
                    *self,
                    i,
                    self.measuring_topics.keys()[i],
                    rates@[i],
                    list_width,
                    *truncate,
                    #[trigger] rows@[i],
                ),
    {
        let topics = self.get_sorted_measuring_topics();
        let ghost sorted = self.measuring_topics.keys();
        let mut rows: Vec<MeasureRow> = Vec::new();
        let mut i: usize = 0;
        assert(text::texts(topics@).len() == topics@.len());
        while i < topics.len()
            invariant
                i <= topics@.len(),
                topics@.len() == rates@.len(),
                text::texts(topics@) == sorted,
                sorted == self.measuring_topics.keys(),
                rows@.len() == i,
                forall|s: &str, n: usize| #[trigger] call_requires(*truncate, (s, n)),
                forall|j: int|
                    0 <= j < i ==> is_row(
                        *self,
                        j,
                        sorted[j],
                        rates@[j],
                        list_width,
                        *truncate,
                        #[trigger] rows@[j],
                    ),
            decreases topics@.len() - i,
        {
            let rate = match &rates[i] {
                Some(hz) => join3(" ", hz.as_str(), " Hz"),
                None => String::new(),
            };
            let taken: usize = rate.as_str().len();
            let width: usize = list_width.saturating_sub(taken.saturating_add(2));
            assert(sorted[i as int] == topics@[i as int]@);
            let topic = topics[i].as_str();
            let name = truncate(topic, width);
            let row = MeasureRow { selected: i == self.measure_selected_index, name, rate };
            assert(call_ensures(*truncate, (topic, width), row.name));
            assert(is_row(
                *self,
                i as int,
                sorted[i as int],
                rates@[i as int],
                list_width,
                *truncate,
                row,
            ));
            rows.push(row);
            i += 1;
        }
        rows
    }
}

/// What the measurement panel shows.
pub enum MeasurementPanel {
    /// No topic is measured.
    Empty,
    /// No measured topic is selected.
    Blank,
    /// There are no measurements of the selected topic.
    Waiting(String),
    /// The measurements of the selected topic.
    Charts(String),
}

/// `p` is what the measurement panel shows where the topic at the place `i` is
/// selected and there are measurements of the topics `measured`.
pub open spec fn is_panel(
    topics: Seq<Seq<char>>,
    i: int,
    measured: Set<Seq<char>>,
    p: MeasurementPanel,
) -> bool {
    match p {
        MeasurementPanel::Empty => topics.len() == 0,
        MeasurementPanel::Blank => 0 < topics.len() <= i,
        MeasurementPanel::Waiting(t) => i < topics.len() && t@ == topics[i] && !measured.contains(
            t@,
        ),
        MeasurementPanel::Charts(t) => i < topics.len() && t@ == topics[i] && measured.contains(t@),
    }
}

/// The help that is shown where no topic is measured.
pub open spec fn empty_help() -> Seq<char> {
    "No topics being monitored.\n\nGo to Topics tab (press 1) and press 'm' on topics to add them.\n\nKeybindings:\nm - Toggle topic in measurement list (in Topics tab)\nr - Clear all measurements (in Measure tab)\n4 - Jump to this Measure tab"@
}

/// The help that is shown where no topic is measured.
pub fn empty_panel_text() -> (s: String)
    ensures
        s@ == empty_help(),
{
    "No topics being monitored.\n\nGo to Topics tab (press 1) and press 'm' on topics to add them.\n\nKeybindings:\nm - Toggle topic in measurement list (in Topics tab)\nr - Clear all measurements (in Measure tab)\n4 - Jump to this Measure tab".to_owned()
}

impl App {
    /// Decides what the measurement panel shows. `metrics` holds the topics of
    /// which there are measurements.
    pub fn render_measurement_panel<M>(&self, metrics: &NameMap<M>) -> (p: MeasurementPanel)
        ensures
            is_panel(
                self.measuring_topics.keys(),
                self.measure_selected_index as int,
                metrics@.dom(),
                p,
            ),
    {
        if self.measuring_topics.len() == 0 {
            return MeasurementPanel::Empty;
        }
        if self.measure_selected_index >= self.measuring_topics.len() {
            return MeasurementPanel::Blank;
        }
        let topic = self.measuring_topics.key_at(self.measure_selected_index).clone();
        if metrics.contains(topic.as_str()) {
            MeasurementPanel::Charts(topic)
        } else {
            MeasurementPanel::Waiting(topic)
        }
    }
}

// ---------------------------------------------------------------------------
// Wrapping
// ---------------------------------------------------------------------------

/// A text in rows of `width` characters, the last of them perhaps shorter.
pub open spec fn chunks(s: Seq<char>, width: int) -> Seq<Seq<char>>
    decreases s.len(),
{
    if width <= 0 || s.len() <= width {
        seq![s]
    } else {
        seq![s.take(width)] + chunks(s.skip(width), width)
    }
}

/// Wraps a line to rows of at most `width` characters.
pub fn wrap_to_width(line: &str, width: usize) -> (rows: Vec<String>)
    ensures
        text::texts(rows@) == chunks(line@, width as int),
{
    let chars = chars_of(line);
    let mut rows: Vec<String> = Vec::new();
    let mut at: usize = 0;
    let n: usize = chars.len();
    if width == 0 {
        rows.push(line.to_owned());
        assert(text::texts(rows@) =~= seq![line@]);
        return rows;
    }
    assert(text::texts(rows@) + chunks(line@.skip(0), width as int) =~= chunks(
        line@,
        width as int,
    )) by {
        assert(line@.skip(0) =~= line@);
    }
    while n - at > width
        invariant
            at <= n,
            n == chars@.len(),
            chars@ == line@,
            width > 0,
            text::texts(rows@) + chunks(line@.skip(at as int), width as int) == chunks(
                line@,
                width as int,
            ),
        decreases n - at,
    {
        let ghost done = text::texts(rows@);
        let ghost rest = line@.skip(at as int);
        let row = slice_text(&chars, at, at + width);
        proof {
            assert(row@ =~= rest.take(width as int));
            assert(rest.skip(width as int) =~= line@.skip(at + width));
        }
        rows.push(row);
        assert(text::texts(rows@) =~= done.push(row@));
        assert(done.push(row@) + chunks(line@.skip(at + width), width as int) =~= done + (seq![
            row@,
        ] + chunks(line@.skip(at + width), width as int)));
        at += width;
    }
    let ghost done = text::texts(rows@);
    let last = slice_text(&chars, at, n);
    assert(last@ =~= line@.skip(at as int));
    rows.push(last);
    assert(text::texts(rows@) =~= done + seq![last@]);
    rows
}

/// Lines, wrapped one after the other.
pub open spec fn wrapped(lines: Seq<Seq<char>>, width: int) -> Seq<Seq<char>>
    decreases lines.len(),
{
    if lines.len() == 0 {
        Seq::empty()
    } else {
        wrapped(lines.drop_last(), width) + chunks(lines.last(), width)
    }
}

fn wrap_lines(lines: &VecDeque<String>, width: usize) -> (rows: Vec<String>)
    ensures
        text::texts(rows@) == wrapped(text::texts(lines@), width as int),
{
    let ghost all = text::texts(lines@);
    let mut rows: Vec<String> = Vec::new();
    let mut i: usize = 0;
    assert(all.take(0) =~= Seq::empty());
    assert(text::texts(rows@) =~= Seq::empty());
    while i < lines.len()
        invariant
            i <= lines@.len(),
            all == text::texts(lines@),
            text::texts(rows@) == wrapped(all.take(i as int), width as int),
        decreases lines@.len() - i,
    {
        let ghost done = text::texts(rows@);
        let more = wrap_to_width(lines[i].as_str(), width);
        let ghost added = text::texts(more@);
        let mut j: usize = 0;
        while j < more.len()
            invariant
                j <= more@.len(),
                added == text::texts(more@),
                text::texts(rows@) =~= done + added.take(j as int),
            decreases more@.len() - j,
        {
            let ghost rs = text::texts(rows@);
            rows.push(more[j].clone());
            assert(text::texts(rows@) =~= rs.push(more@[j as int]@));
            assert(added[j as int] == more@[j as int]@);
            j += 1;
        }
        assert(added.take(j as int) =~= added);
        assert(all.take(i + 1).drop_last() =~= all.take(i as int));
        assert(all[i as int] == lines@[i as int]@);
        i += 1;
    }
    assert(all.take(i as int) =~= all);
    rows
}

// ---------------------------------------------------------------------------
// Echo
// ---------------------------------------------------------------------------

/// The colour of a border.
#[derive(Clone, Copy, PartialEq, Eq, Structural, Debug)]
pub enum Tint {
    Red,
    Cyan,
    DarkGray,
}

/// The rows of the echo that are seen.
pub struct EchoWindow {
    pub rows: Vec<String>,
    pub title: String,
    /// How far the rows can be scrolled, and how far they are, where not all of
    /// them are seen.
    pub scrollbar: Option<(usize, usize)>,
}

/// What is in the echo panel.
pub enum EchoBody {
    /// A word on how the echo stands.
    Status(String),
    /// The echo itself.
    Window(EchoWindow),
}

/// What the echo panel shows.
pub struct EchoPanel {
    pub border: Tint,
    pub body: EchoBody,
}

/// The border of the echo panel.
pub open spec fn echo_border(status: EchoStatus, focus: FocusPane) -> Tint {
    if status is Error {
        Tint::Red
    } else if focus is Detail {
        Tint::Cyan
    } else {
        Tint::DarkGray
    }
}

/// A text that may be there.
pub open spec fn or_blank(s: Option<String>) -> Seq<char> {
    match s {
        Some(s) => s@,
        None => Seq::empty(),
    }
}

/// The word on how the echo stands, unless messages come in.
pub open spec fn echo_word(st: EchoState) -> Option<Seq<char>> {
    match st.status {
        EchoStatus::Idle => Some(
            "Select a topic (j/k) to echo its messages.\n\nPress 'l' to focus this pane, then j/k or ↑/↓ to scroll, Ctrl-U/Ctrl-D to page."@,
        ),
        EchoStatus::Discovering => Some(
            or_blank(st.topic) + "\n\nDiscovering message schema..."@,
        ),
        EchoStatus::NoData => Some(or_blank(st.message_type) + "\n\nWaiting for messages..."@),
        EchoStatus::Error(e) => Some(
            "Unable to echo this topic:\n  "@ + e@
                + "\n\nNo type description service and no local .msg definition ($AMENT_PREFIX_PATH) for this type."@,
        ),
        EchoStatus::Active => None,
    }
}

/// Whether the newest row stays in sight, and the first row that is seen, where
/// `max` rows can be scrolled away.
pub open spec fn scrolled(follow: bool, scroll: int, max: int) -> (bool, int) {
    if follow || scroll >= max {
        (true, max)
    } else {
        (false, scroll)
    }
}

/// How many of `total` rows do not fit into `height` rows.
pub open spec fn hidden_rows(total: int, height: int) -> int {
    if total < height {
        0
    } else {
        total - height
    }
}

/// The title above the echo.
pub open spec fn echo_title(
    topic: Option<String>,
    end: int,
    total: int,
    count: u64,
    follow: bool,
) -> Seq<char> {
    " Echo: "@ + or_blank(topic) + " ["@ + text::decimal(end as nat) + "/"@ + text::decimal(
        total as nat,
    ) + " msgs:"@ + text::decimal(count as nat) + " "@ + (if follow {
        "live"@
    } else {
        "scroll"@
    }) + "] "@
}

/// The window of `height` rows into the echo, with the first row `first`.
pub open spec fn is_window(
    st: EchoState,
    width: int,
    height: int,
    follow: bool,
    first: int,
    w: EchoWindow,
) -> bool {
    let all = wrapped(st.shown(), width);
    let total = all.len() as int;
    let end = if first + height < total {
        first + height
    } else {
        total
    };
    &&& 0 <= first <= end <= total
    &&& text::texts(w.rows@) == all.subrange(first, end)
    &&& w.title@ == echo_title(st.topic, end, total, st.msg_count, follow)
    &&& match w.scrollbar {
        Some((length, position)) => total > height && length == total - height && position
            == first,
        None => total <= height,
    }
}

/// The rows inside a frame of `height` rows.
pub open spec fn inside_rows(height: u16) -> int {
    if height < 2 {
        0
    } else {
        height - 2
    }
}

/// The columns inside a frame of `width` columns, at least one.
pub open spec fn inside_columns(width: u16) -> int {
    if width < 3 {
        1
    } else {
        width - 2
    }
}

fn text_or_blank(s: &Option<String>) -> (r: String)
    ensures
        r@ == or_blank(*s),
{
    match s {
        Some(s) => s.clone(),
        None => String::new(),
    }
}

fn echo_status_text(st: &EchoState) -> (r: Option<String>)
    ensures
        match r {
            Some(s) => echo_word(*st) == Some(s@),
            None => echo_word(*st) is None,
        },
{
    match &st.status {
        EchoStatus::Idle => Some(
            "Select a topic (j/k) to echo its messages.\n\nPress 'l' to focus this pane, then j/k or ↑/↓ to scroll, Ctrl-U/Ctrl-D to page.".to_owned(),
        ),
        EchoStatus::Discovering => Some(
            join2(text_or_blank(&st.topic).as_str(), "\n\nDiscovering message schema..."),
        ),
        EchoStatus::NoData => Some(
            join2(text_or_blank(&st.message_type).as_str(), "\n\nWaiting for messages..."),
        ),
        EchoStatus::Error(e) => Some(
            join3(
                "Unable to echo this topic:\n  ",
                e.as_str(),
                "\n\nNo type description service and no local .msg definition ($AMENT_PREFIX_PATH) for this type.",
            ),
        ),
        EchoStatus::Active => None,
    }
}

fn write_echo_title(topic: &Option<String>, end: usize, total: usize, count: u64, follow: bool) -> (s:
    String)
    ensures
        s@ == echo_title(*topic, end as int, total as int, count, follow),
{
    let mut s = " Echo: ".to_owned();
    s.append(text_or_blank(topic).as_str());
    s.append(" [");
    s.append(decimal_text(end as u64).as_str());
    s.append("/");
    s.append(decimal_text(total as u64).as_str());
    s.append(" msgs:");
    s.append(decimal_text(count).as_str());
    s.append(" ");
    if follow {
        s.append("live");
    } else {
        s.append("scroll");
    }
    s.append("] ");
    s
}

/// The rows from `start` up to `end`.
fn rows_between(rows: &Vec<String>, start: usize, end: usize) -> (v: Vec<String>)
    requires
        start <= end <= rows@.len(),
    ensures
        text::texts(v@) == text::texts(rows@).subrange(start as int, end as int),
{
    let mut v: Vec<String> = Vec::new();
    let mut i: usize = start;
    while i < end
        invariant
            start <= i <= end <= rows@.len(),
            v@.len() == i - start,
            forall|j: int| 0 <= j < v@.len() ==> (#[trigger] v@[j])@ == rows@[start + j]@,
        decreases end - i,
    {
        v.push(rows[i].clone());
        i += 1;
    }
    assert(text::texts(v@) =~= text::texts(rows@).subrange(start as int, end as int));
    v
}

impl App {
    /// `p` is what the echo panel shows in a frame of `width` columns and
    /// `height` rows, and `after` says where its scrolling stands then.
    pub open spec fn is_echo_panel(
        &self,
        after: App,
        st: EchoState,
        width: u16,
        height: u16,
        p: EchoPanel,
    ) -> bool {
        &&& after.echo_viewport == inside_rows(height)
        &&& p.border == echo_border(st.status, self.focus_pane)
        &&& match p.body {
            EchoBody::Status(s) => {
                &&& echo_word(st) == Some(s@)
                &&& after.echo_scroll == self.echo_scroll
                &&& after.echo_follow == self.echo_follow
            },
            EchoBody::Window(w) => {
                let total = wrapped(st.shown(), inside_columns(width)).len();
                let max = hidden_rows(total as int, inside_rows(height));
                &&& echo_word(st) is None
                &&& (after.echo_follow, after.echo_scroll as int) == scrolled(
                    self.echo_follow,
                    self.echo_scroll as int,
                    max,
                )
                &&& is_window(
                    st,
                    inside_columns(width),
                    inside_rows(height),
                    after.echo_follow,
                    after.echo_scroll as int,
                    w,
                )
            },
        }
    }

    /// Decides what the echo panel shows for the selected topic in a frame of
    /// `width` columns and `height` rows, and where its scrolling stands.
    pub fn render_echo_panel(&mut self, st: &EchoState, width: u16, height: u16) -> (p: EchoPanel)
        ensures
            final(self).measuring_topics == old(self).measuring_topics,
            final(self).measure_selected_index == old(self).measure_selected_index,
            final(self).focus_pane == old(self).focus_pane,
            old(self).is_echo_panel(*final(self), *st, width, height, p),
    {
        let inner_height: usize = height.saturating_sub(2) as usize;
        self.echo_viewport = inner_height;
        let failed = match &st.status {
            EchoStatus::Error(_) => true,
            _ => false,
        };
        let border = if failed {
            Tint::Red
        } else if self.focus_pane == FocusPane::Detail {
            Tint::Cyan
        } else {
            Tint::DarkGray
        };
        match echo_status_text(st) {
            Some(s) => {
                return EchoPanel { border, body: EchoBody::Status(s) };
            },
            None => {},
        }
        let inner_width: usize = if width < 3 {
            1
        } else {
            (width - 2) as usize
        };
        let display = wrap_lines(&st.lines, inner_width);
        assert(text::texts(display@).len() == display@.len());
        let total: usize = display.len();
        let max_scroll: usize = total.saturating_sub(inner_height);
        if self.echo_follow {
            self.echo_scroll = max_scroll;
        } else {
            if self.echo_scroll > max_scroll {
                self.echo_scroll = max_scroll;
            }
            if self.echo_scroll >= max_scroll {
                self.echo_follow = true;
            }
        }
        let start: usize = self.echo_scroll;
        let end: usize = if total - start > inner_height {
            start + inner_height
        } else {
            total
        };
        let rows = rows_between(&display, start, end);
        let title = write_echo_title(&st.topic, end, total, st.msg_count, self.echo_follow);
        let scrollbar = if total > inner_height {
            Some((max_scroll, self.echo_scroll))
        } else {
            None
        };
        EchoPanel { border, body: EchoBody::Window(EchoWindow { rows, title, scrollbar }) }
    }
}

// ---------------------------------------------------------------------------
// Charts
// ---------------------------------------------------------------------------

/// The greatest of the values, at least one.
pub open spec fn greatest(data: Seq<u64>) -> u64
    decreases data.len(),
{
    if data.len() == 0 {
        1
    } else {
        let before = greatest(data.drop_last());
        if data.last() > before {
            data.last()
        } else {
            before
        }
    }
}

/// The title of a panel.
pub open spec fn panel_title(title: Seq<char>) -> Seq<char> {
    " "@ + title + " "@
}

/// The title of a panel.
pub fn write_panel_title(title: &str) -> (s: String)
    ensures
        s@ == panel_title(title@),
{
    join3(" ", title, " ")
}

/// What a chart shows.
pub enum Chart {
    /// There is nothing to show yet.
    Waiting,
    /// The values, up to `max`. Each is `scale` times what it stands for.
    Values { max: u64, scale: u64 },
}

/// `c` is the chart of the values, under the given title.
pub open spec fn is_chart(data: Seq<u64>, title: Seq<char>, c: Chart) -> bool {
    match c {
        Chart::Waiting => data.len() == 0,
        Chart::Values { max, scale } => {
            &&& data.len() > 0
            &&& max == greatest(data)
            &&& scale == (if text::occurs_in(title, "KB/s"@) {
                10u64
            } else {
                1u64
            })
        },
    }
}

impl App {
    /// Decides what a chart shows.
    pub fn render_sparkline_with_axes(&self, data: &Vec<u64>, title: &str) -> (c: Chart)
        ensures
            is_chart(data@, title@, c),
    {
        if data.len() == 0 {
            return Chart::Waiting;
        }
        let mut max: u64 = 1;
        let mut i: usize = 0;
        assert(data@.take(0) =~= Seq::empty());
        while i < data.len()
            invariant
                i <= data@.len(),
                max == greatest(data@.take(i as int)),
            decreases data@.len() - i,
        {
            assert(data@.take(i + 1).drop_last() =~= data@.take(i as int));
            if data[i] > max {
                max = data[i];
            }
            i += 1;
        }
        assert(data@.take(i as int) =~= data@);
        let scale: u64 = if contains_part(title, "KB/s") {
            10
        } else {
            1
        };
        Chart::Values { max, scale }
    }
}

/// How many seconds are between two ticks of an axis of `width` columns.
pub open spec fn seconds_per_tick(width: usize) -> usize {
    if width > 60 {
        10
    } else {
        15
    }
}

/// What stands in the column `i` of an axis, `sec` seconds from its start.
pub open spec fn axis_mark(width: usize, i: int, sec: usize) -> char {
    if sec as int % seconds_per_tick(width) as int == 0 && i > 0 {
        '┴'
    } else {
        '─'
    }
}

/// The columns between the ends of an axis.
pub open spec fn axis_columns(width: usize) -> int {
    if width < 2 {
        0
    } else {
        width - 2
    }
}

/// An axis of `width` columns. `seconds` holds the seconds of the columns
/// between its ends.
pub open spec fn axis(width: usize, seconds: Seq<usize>) -> Seq<char> {
    seq!['└'] + Seq::new(
        axis_columns(width) as nat,
        |i: int| axis_mark(width, i, seconds[i]),
    ) + seq!['┘']
}

/// Draws an axis.
pub fn axis_line(width: usize, seconds: &Vec<usize>) -> (s: String)
    requires
        seconds@.len() == axis_columns(width),
    ensures
        s@ == axis(width, seconds@),
{
    let mut s = String::new();
    s.push('└');
    let tick: usize = if width > 60 {
        10
    } else {
        15
    };
    let n: usize = width.saturating_sub(2);
    let ghost marks = Seq::new(n as nat, |i: int| axis_mark(width, i, seconds@[i]));
    let mut i: usize = 0;
    assert(s@ =~= seq!['└'] + marks.take(0));
    while i < n
        invariant
            i <= n,
            n == seconds@.len(),
            tick == seconds_per_tick(width),
            marks == Seq::new(n as nat, |i: int| axis_mark(width, i, seconds@[i])),
            s@ == seq!['└'] + marks.take(i as int),
        decreases n - i,
    {
        let ghost so_far = s@;
        if seconds[i] % tick == 0 && i > 0 {
            s.push('┴');
        } else {
            s.push('─');
        }
        assert(marks.take(i + 1) =~= marks.take(i as int).push(marks[i as int]));
        assert(s@ =~= seq!['└'] + marks.take(i + 1));
        i += 1;
    }
    s.push('┘');
    assert(marks.take(i as int) =~= marks);
    assert(s@ =~= axis(width, seconds@));
    s
}

/// A run of spaces.
pub open spec fn spaces(n: int) -> Seq<char> {
    Seq::new(n as nat, |i: int| ' ')
}

/// The labels below an axis of `width` columns that goes back `history`
/// seconds.
pub open spec fn axis_labels(width: usize, history: usize) -> Seq<char> {
    " "@ + text::decimal(history as nat) + "s"@ + spaces(
        if width < 8 {
            0
        } else {
            width - 8
        },
    ) + "now"@
}

/// Writes the labels below an axis.
pub fn label_line(width: usize, history: usize) -> (s: String)
    ensures
        s@ == axis_labels(width, history),
{
    let mut s = join3(" ", decimal_text(history as u64).as_str(), "s");
    let n: usize = width.saturating_sub(8);
    let ghost start = s@;
    let mut i: usize = 0;
    assert(s@ =~= start + spaces(0));
    while i < n
        invariant
            i <= n,
            s@ == start + spaces(i as int),
        decreases n - i,
    {
        s.push(' ');
        assert(s@ =~= start + spaces(i + 1));
        i += 1;
    }
    s.append("now");
    s
}

} // verus!
