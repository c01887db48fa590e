use vstd::prelude::*;

use crate::markup_tags::{render_tags, tag_events_step, MarkupPerform as TagPerform};
use crate::term::{ansi_events, lossy_utf8, utf8_encoding};
use crate::text::{spec_split_once, split_once};

verus! {

broadcast use vstd::string::group_string_axioms;

/// Splits a decoded log line into its timestamp and its message at the first
/// space; `None` when the line holds no space.
pub fn split_timestamp(line: &str) -> (parts: Option<(String, String)>)
    ensures
        match spec_split_once(line@, " "@) {
            Some((ts, msg)) => match parts {
                Some((a, b)) => a@ == ts && b@ == msg,
                None => false,
            },
            None => parts is None,
        },
{
    split_once(line, " ")
}

/// The text inserted into the log view for a message: the message alone into
/// an empty view, after a line break when appended, before one when
/// prepended.
pub open spec fn spec_insertion(buffer_empty: bool, message: Seq<char>, at_end: bool) -> Seq<char> {
    if buffer_empty {
        message
    } else if at_end {
        "\n"@ + message
    } else {
        message + "\n"@
    }
}

pub fn insertion_text(buffer_empty: bool, message: &str, at_end: bool) -> (text: String)
    ensures
        text@ == spec_insertion(buffer_empty, message@, at_end),
{
    if buffer_empty {
        String::from_str(message)
    } else if at_end {
        let mut text = String::from_str("\n");
        text.append(message);
        text
    } else {
        let mut text = String::from_str(message);
        text.append("\n");
        text
    }
}

/// The log view's text after inserting a message at one end.
pub open spec fn spec_insert_line(text: Seq<char>, message: Seq<char>, at_end: bool) -> Seq<char> {
    let piece = spec_insertion(text.len() == 0, message, at_end);
    if at_end {
        text + piece
    } else {
        piece + text
    }
}

pub open spec fn newlines(s: Seq<char>) -> nat
    decreases s.len(),
{
    if s.len() == 0 {
        0
    } else {
        newlines(s.drop_last()) + if s.last() == '\n' { 1nat } else { 0nat }
    }
}

/// The number of lines a view's text shows: none when it is empty.
pub open spec fn line_count(s: Seq<char>) -> nat {
    if s.len() == 0 {
        0
    } else {
        newlines(s) + 1
    }
}

pub proof fn lemma_newlines_concat(a: Seq<char>, b: Seq<char>)
    ensures
        newlines(a + b) == newlines(a) + newlines(b),
    decreases b.len(),
{
    if b.len() == 0 {
        assert(a + b =~= a);
    } else {
        lemma_newlines_concat(a, b.drop_last());
        assert((a + b).drop_last() =~= a + b.drop_last());
    }
}

/// Inserting a non-empty single-line message adds exactly one line to the
/// view, at either end; this keeps the view's lines and the timestamps
/// recorded for them (one per inserted message) aligned.
pub proof fn lemma_insert_adds_one_line(text: Seq<char>, message: Seq<char>, at_end: bool)
    requires
        message.len() > 0,
        newlines(message) == 0,
    ensures
        line_count(spec_insert_line(text, message, at_end)) == line_count(text) + 1,
{
    reveal_strlit("\n");
    let nl = "\n"@;
    assert(newlines(nl) == 1) by {
        assert(nl.len() == 1);
        assert(nl.last() == '\n');
        assert(nl.drop_last() =~= Seq::<char>::empty());
        assert(newlines(nl.drop_last()) == 0);
    }
    if text.len() == 0 {
        assert(spec_insert_line(text, message, at_end) =~= message);
    } else if at_end {
        lemma_newlines_concat(nl, message);
        lemma_newlines_concat(text, nl + message);
        assert(spec_insert_line(text, message, at_end) =~= text + (nl + message));
    } else {
        lemma_newlines_concat(message, nl);
        lemma_newlines_concat(message + nl, text);
        assert(spec_insert_line(text, message, at_end) =~= (message + nl) + text);
    }
}

/// The timestamps of the lines shown in a log view, oldest first, and the
/// timestamp of the first line ever shown, before which older lines are
/// fetched.
#[derive(Debug)]
pub struct LogHistory {
    timestamps: Vec<String>,
    fetch_until: Option<String>,
}

pub open spec fn seq_views(v: Seq<String>) -> Seq<Seq<char>> {
    v.map_values(|s: String| s@)
}

/// The length of the run of entries at the end that equal the last one.
pub open spec fn trailing_run(ts: Seq<Seq<char>>) -> nat
    decreases ts.len(),
{
    if ts.len() == 0 {
        0
    } else if ts.len() == 1 || ts[ts.len() - 2] != ts.last() {
        1
    } else {
        trailing_run(ts.drop_last()) + 1
    }
}

impl LogHistory {
    pub closed spec fn timestamps(&self) -> Seq<Seq<char>> {
        seq_views(self.timestamps@)
    }

    pub closed spec fn fetch_until(&self) -> Option<Seq<char>> {
        match self.fetch_until {
            Some(s) => Some(s@),
            None => None,
        }
    }

    pub fn new() -> (history: Self)
        ensures
            history.timestamps() == Seq::<Seq<char>>::empty(),
            history.fetch_until() is None,
    {
        let history = LogHistory { timestamps: Vec::new(), fetch_until: None };
        assert(history.timestamps() =~= Seq::<Seq<char>>::empty());
        history
    }

    /// Records the timestamp of a line inserted at the end (newest) or at the
    /// start (oldest). The first timestamp ever recorded is kept as the point
    /// before which older lines are fetched.
    pub fn record(&mut self, timestamp: &str, at_end: bool)
        ensures
            final(self).timestamps() == (if at_end {
                old(self).timestamps().push(timestamp@)
            } else {
                seq![timestamp@] + old(self).timestamps()
            }),
            final(self).fetch_until() == (match old(self).fetch_until() {
                Some(until) => Some(until),
                None => Some(timestamp@),
            }),
    {
        if self.fetch_until.is_none() {
            self.fetch_until = Some(String::from_str(timestamp));
        }
        let ghost before = self.timestamps@;
        if at_end {
            self.timestamps.push(String::from_str(timestamp));
            assert(seq_views(self.timestamps@) =~= seq_views(before).push(timestamp@));
        } else {
            self.timestamps.insert(0, String::from_str(timestamp));
            assert(seq_views(self.timestamps@) =~= seq![timestamp@] + seq_views(before));
        }
    }

    /// The timestamp of a line of the view, if it has one.
    pub fn timestamp_of(&self, line: usize) -> (timestamp: Option<&String>)
        ensures
            line < self.timestamps().len() ==> timestamp is Some && timestamp->0@ == self.timestamps()[line as int],
            line >= self.timestamps().len() ==> timestamp is None,
    {
        if line < self.timestamps.len() {
            Some(&self.timestamps[line])
        } else {
            None
        }
    }

    /// The timestamp before which older lines are fetched.
    pub fn until(&self) -> (until: Option<&String>)
        ensures
            match self.fetch_until() {
                Some(u) => until is Some && until->0@ == u,
                None => until is None,
            },
    {
        match &self.fetch_until {
            Some(u) => Some(u),
            None => None,
        }
    }

    /// Where following the log resumes: from the newest timestamp, skipping
    /// the lines already shown with that timestamp (the engine sends them
    /// again).
    pub fn resume_point(&self) -> (point: Option<(String, usize)>)
        ensures
            self.timestamps().len() == 0 ==> point is None,
            self.timestamps().len() > 0 ==> match point {
                Some((last, skip)) => last@ == self.timestamps().last() && skip == trailing_run(self.timestamps()),
                None => false,
            },
    {
        let n = self.timestamps.len();
        if n == 0 {
            return None;
        }
        let ghost ts = self.timestamps();
        let last = &self.timestamps[n - 1];
        let mut k: usize = n - 1;
        while k > 0 && self.timestamps[k - 1] == *last
            invariant
                0 <= k < n,
                n == self.timestamps@.len(),
                ts == self.timestamps(),
                last@ == ts.last(),
                forall|j: int| k <= j < n ==> ts[j] == ts.last(),
            decreases k,
        {
            k = k - 1;
        }
        proof {
            lemma_trailing_run_exact(ts, k as int);
        }
        Some((last.clone(), n - k))
    }
}

/// The run at the end starts right after the last entry that differs from
/// the last one.
proof fn lemma_trailing_run_exact(ts: Seq<Seq<char>>, k: int)
    requires
        0 <= k < ts.len(),
        forall|j: int| k <= j < ts.len() ==> ts[j] == ts.last(),
        k == 0 || ts[k - 1] != ts.last(),
    ensures
        trailing_run(ts) == ts.len() - k,
    decreases ts.len(),
{
    if k < ts.len() - 1 {
        let t = ts.drop_last();
        assert(ts[ts.len() - 2] == ts.last());
        assert(t.last() == ts.last());
        lemma_trailing_run_exact(t, k);
    }
}

/// Drops the first lines of a followed log, which repeat lines already shown.
#[derive(Debug)]
pub struct FollowFilter {
    skip: usize,
}

impl FollowFilter {
    pub closed spec fn remaining(&self) -> nat {
        self.skip as nat
    }

    pub fn new(skip: usize) -> (filter: Self)
        ensures
            filter.remaining() == skip,
    {
        FollowFilter { skip }
    }

    /// Whether the next line of the stream is shown.
    pub fn accept(&mut self) -> (shown: bool)
        ensures
            shown <==> old(self).remaining() == 0,
            final(self).remaining() == (if old(self).remaining() == 0 { 0 } else { old(self).remaining() - 1 }),
    {
        if self.skip == 0 {
            true
        } else {
            self.skip = self.skip - 1;
            false
        }
    }
}

/// The number of fetched lines moved into the view at a time.
pub const BATCH_LINES: usize = 128;

/// Takes the newest fetched lines, at most a batch of them, newest first,
/// as they are prepended to the view one by one.
pub fn take_batch(fetched: &mut Vec<Vec<u8>>) -> (batch: Vec<Vec<u8>>)
    ensures
        ({
            let n = old(fetched)@.len();
            let k = if n < 128 { n } else { 128 };
            &&& batch@.len() == k
            &&& final(fetched)@ == old(fetched)@.take(n - k)
            &&& forall|i: int| 0 <= i < k ==> #[trigger] batch@[i] == old(fetched)@[n - 1 - i]
        }),
{
    let ghost orig = fetched@;
    let mut batch: Vec<Vec<u8>> = Vec::new();
    let mut i: usize = 0;
    while i < BATCH_LINES
        invariant_except_break
            i <= 128,
            batch@.len() == i,
            i <= orig.len(),
            fetched@ == orig.take(orig.len() - i),
            forall|j: int| 0 <= j < i ==> #[trigger] batch@[j] == orig[orig.len() - 1 - j],
        ensures
            batch@.len() == (if orig.len() < 128 { orig.len() } else { 128 }),
            fetched@ == orig.take(orig.len() - batch@.len()),
            forall|j: int| 0 <= j < batch@.len() ==> #[trigger] batch@[j] == orig[orig.len() - 1 - j],
        decreases 128 - i,
    {
        match fetched.pop() {
            Some(line) => {
                batch.push(line);
                assert(fetched@ =~= orig.take(orig.len() - (i + 1)));
            },
            None => {
                break;
            },
        }
        i = i + 1;
    }
    batch
}

/// The state of fetching lines older than those shown.
#[derive(Clone, Copy, Debug, PartialEq, Eq, Structural)]
pub enum FetchState {
    Waiting,
    Fetching,
    Finished,
}

/// What scrolling towards the top of the log asks for.
#[derive(Clone, Debug)]
pub enum ScrollAction {
    Nothing,
    /// Fetch the lines logged before this timestamp.
    FetchBefore(String),
    /// Move fetched lines into the view.
    MoveLines,
}

/// Decides what scrolling does: nothing unless the view moved up into its
/// first page; then a first fetch of older lines, or, once they are all
/// fetched, moving the next batch into the view.
pub fn on_scroll(state: FetchState, moved_up_near_top: bool, until: Option<&String>) -> (action: ScrollAction)
    ensures
        !moved_up_near_top ==> action is Nothing,
        moved_up_near_top ==> match state {
            FetchState::Waiting => match until {
                Some(u) => action matches ScrollAction::FetchBefore(t) && t@ == u@,
                None => action is Nothing,
            },
            FetchState::Finished => action is MoveLines,
            FetchState::Fetching => action is Nothing,
        },
{
    if !moved_up_near_top {
        return ScrollAction::Nothing;
    }
    match state {
        FetchState::Waiting => match until {
            Some(u) => ScrollAction::FetchBefore(u.clone()),
            None => ScrollAction::Nothing,
        },
        FetchState::Finished => ScrollAction::MoveLines,
        FetchState::Fetching => ScrollAction::Nothing,
    }
}

/// Whether the view follows new lines, and whether it is scrolling to the
/// end by itself.
#[derive(Clone, Copy, Debug, PartialEq, Eq, Structural)]
pub struct ScrollFollow {
    pub auto_scrolling: bool,
    pub sticky: bool,
}

impl ScrollFollow {
    /// Starts scrolling to the end.
    pub fn scroll_down(&mut self)
        ensures
            final(self).auto_scrolling,
            final(self).sticky == old(self).sticky,
    {
        self.auto_scrolling = true;
    }

    /// Reacts to a change of the scroll position: while scrolling by itself
    /// the view becomes sticky once it reaches the end; otherwise it is
    /// sticky exactly when it is at the end.
    pub fn on_adjustment_changed(&mut self, at_end: bool)
        ensures
            old(self).auto_scrolling ==> (if at_end {
                !final(self).auto_scrolling && final(self).sticky
            } else {
                *final(self) == *old(self)
            }),
            !old(self).auto_scrolling ==> !final(self).auto_scrolling && final(self).sticky == at_end,
    {
        if self.auto_scrolling {
            if at_end {
                self.auto_scrolling = false;
                self.sticky = true;
            }
        } else {
            self.sticky = at_end;
        }
    }

    /// Reacts to the text growing: a view that follows new lines, or that is
    /// scrolling by itself, scrolls to the end again. Returns whether it does.
    pub fn on_upper_changed(&mut self) -> (scrolls: bool)
        ensures
            scrolls == (old(self).sticky || old(self).auto_scrolling),
            scrolls ==> final(self).auto_scrolling && final(self).sticky == old(self).sticky,
            !scrolls ==> *final(self) == *old(self),
    {
        if self.sticky || self.auto_scrolling {
            self.scroll_down();
            true
        } else {
            false
        }
    }
}

/// The markup of a timestamp in the log view's gutter.
pub fn timestamp_markup(timestamp: &str) -> (markup: String)
    ensures
        markup@ == "<span foreground=\"#865e3c\">"@ + timestamp@ + "</span>"@,
{
    let mut markup = String::from_str("<span foreground=\"#865e3c\">");
    markup.append(timestamp);
    markup.append("</span>");
    markup
}

/// The place where a backward search starts: the start of the current match
/// when the cursor lies in it, else the cursor (the end of the text when the
/// cursor position is unknown).
pub fn backward_search_start(cursor: i32, current: Option<(i32, i32)>) -> (start: i32)
    ensures
        ({
            let at = if cursor >= 0 { cursor } else { i32::MAX };
            start == match current {
                Some((s, e)) => if s <= at && at <= e { s } else { at },
                None => at,
            }
        }),
{
    let at = if cursor >= 0 { cursor } else { i32::MAX };
    match current {
        Some((s, e)) => if s <= at && at <= e { s } else { at },
        None => at,
    }
}

/// The place where a forward search starts: the end of the current match
/// when the cursor lies in it, else the cursor (the start of the text when
/// the cursor position is unknown).
pub fn forward_search_start(cursor: i32, current: Option<(i32, i32)>) -> (start: i32)
    ensures
        ({
            let at = if cursor > 0 { cursor } else { 0 };
            start == match current {
                Some((s, e)) => if s <= at && at <= e { e } else { at },
                None => at,
            }
        }),
{
    let at = if cursor > 0 { cursor } else { 0 };
    match current {
        Some((s, e)) => if s <= at && at <= e { e } else { at },
        None => at,
    }
}

/// The search entry's information: which match is selected out of how
/// many (the first number 0 when none is selected), or nothing without any
/// match.
pub fn occurrence_info(position: Option<i32>, count: i32) -> (info: Option<(i32, i32)>)
    ensures
        info == (if count > 0 {
            Some((match position { Some(p) => p, None => 0 }, count))
        } else {
            None::<(i32, i32)>
        }),
{
    if count > 0 {
        Some((
            match position {
                Some(p) => p,
                None => 0,
            },
            count,
        ))
    } else {
        None
    }
}

/// The payload of a raw log frame of the older engine interface: what
/// follows its eight-byte header, for a frame longer than the header.
/// The bytes of a sequence from an index on.
pub fn bytes_from(bytes: &Vec<u8>, from: usize) -> (tail: Vec<u8>)
    requires
        from <= bytes@.len(),
    ensures
        tail@ == bytes@.skip(from as int),
{
    let mut tail: Vec<u8> = Vec::new();
    let mut i: usize = from;
    while i < bytes.len()
        invariant
            from <= i <= bytes@.len(),
            tail@ == bytes@.subrange(from as int, i as int),
        decreases bytes@.len() - i,
    {
        tail.push(bytes[i]);
        assert(bytes@.subrange(from as int, i + 1) =~= bytes@.subrange(from as int, i as int).push(bytes@[i as int]));
        i = i + 1;
    }
    assert(bytes@.subrange(from as int, bytes@.len() as int) =~= bytes@.skip(from as int));
    tail
}

/// Decodes a chunk of the logs panel's stream, an eight-byte header and
/// text: the text is rendered with the tag-based decoder and, once no tag is
/// left open, everything rendered so far is taken out, followed by a line
/// break, to be appended to the panel. The engine's chunks always carry the
/// header.
pub fn panel_chunk(perform: &mut TagPerform, chunk: &Vec<u8>) -> (text: Option<String>)
    requires
        chunk@.len() >= 8,
    ensures
        ({
            let events = ansi_events(utf8_encoding(lossy_utf8(chunk@.skip(8))));
            let pending = tag_events_step(old(perform).pending(), events).1;
            let rendered = old(perform).buffer() + render_tags(tag_events_step(old(perform).pending(), events).0);
            &&& final(perform).pending() == pending
            &&& pending.len() == 0 ==> final(perform).buffer() == Seq::<char>::empty() && text is Some && text->0@
                == rendered + "\n"@
            &&& pending.len() != 0 ==> final(perform).buffer() == rendered && text is None
        }),
{
    let payload = bytes_from(chunk, 8);
    if perform.decode(&payload) {
        let mut text = perform.move_out_buffer();
        text.append("\n");
        Some(text)
    } else {
        None
    }
}

/// What a fetch of older lines reports.
#[derive(Clone, Copy, Debug, PartialEq, Eq, Structural)]
pub enum FetchEvent {
    /// A line arrived.
    Line,
    /// The stream failed and stops.
    Failed,
    /// The stream ended.
    Finished,
}

/// The next state of a fetch of older lines, and whether the fetched lines
/// are moved into the view: any report of the stream means it is fetching;
/// its end finishes the fetch and moves the first batch.
pub fn on_fetch_event(state: FetchState, event: FetchEvent) -> (next: (FetchState, bool))
    ensures
        next == (match event {
            FetchEvent::Finished => (FetchState::Finished, true),
            _ => (FetchState::Fetching, false),
        }),
{
    match event {
        FetchEvent::Finished => (FetchState::Finished, true),
        _ => (FetchState::Fetching, false),
    }
}

/// The payload of a raw log frame of the container logs: what follows its
/// eight-byte header, for a frame longer than the header.
pub fn frame_payload(frame: &Vec<u8>) -> (payload: Option<Vec<u8>>)
    ensures
        frame@.len() > 8 ==> payload is Some && payload->0@ == frame@.skip(8),
        frame@.len() <= 8 ==> payload is None,
{
    if frame.len() > 8 {
        let mut payload: Vec<u8> = Vec::new();
        let mut i: usize = 8;
        while i < frame.len()
            invariant
                8 <= i <= frame@.len(),
                payload@ == frame@.subrange(8, i as int),
            decreases frame@.len() - i,
        {
            payload.push(frame[i]);
            assert(frame@.subrange(8, i + 1) =~= frame@.subrange(8, i as int).push(frame@[i as int]));
            i = i + 1;
        }
        assert(frame@.subrange(8, frame@.len() as int) =~= frame@.skip(8));
        Some(payload)
    } else {
        None
    }
}

/// What saving a log writes for one decoded line: the line and a line
/// break, or nothing for a line without text.
pub fn saved_line(line: &str) -> (chunk: Option<String>)
    ensures
        line@.len() == 0 ==> chunk is None,
        line@.len() > 0 ==> chunk is Some && chunk->0@ == line@ + "\n"@,
{
    if line.is_empty() {
        None
    } else {
        let mut chunk = String::from_str(line);
        chunk.append("\n");
        Some(chunk)
    }
}

/// The view's text after inserting messages one after the other, each at
/// the end or at the start.
pub open spec fn text_after(inserts: Seq<(Seq<char>, bool)>) -> Seq<char>
    decreases inserts.len(),
{
    if inserts.len() == 0 {
        Seq::empty()
    } else {
        let (message, at_end) = inserts.last();
        spec_insert_line(text_after(inserts.drop_last()), message, at_end)
    }
}

/// The view and its timestamp gutter stay aligned: after any number of
/// non-empty single-line messages inserted at either end, the view shows as
/// many lines as timestamps were recorded, one per message.
pub proof fn lemma_view_lines_match_timestamps(inserts: Seq<(Seq<char>, bool)>)
    requires
        forall|i: int| 0 <= i < inserts.len() ==> (#[trigger] inserts[i]).0.len() > 0 && newlines(inserts[i].0) == 0,
    ensures
        line_count(text_after(inserts)) == inserts.len(),
    decreases inserts.len(),
{
    if inserts.len() > 0 {
        let init = inserts.drop_last();
        assert forall|i: int| 0 <= i < init.len() implies (#[trigger] init[i]).0.len() > 0 && newlines(init[i].0) == 0 by {
            assert(init[i] == inserts[i]);
        }
        lemma_view_lines_match_timestamps(init);
        let (message, at_end) = inserts.last();
        assert(inserts[inserts.len() - 1] == inserts.last());
        lemma_insert_adds_one_line(text_after(init), message, at_end);
    }
}

/// What is left to skip after a number of lines of a followed log.
pub open spec fn remaining_after(skip: nat, lines: nat) -> nat
    decreases lines,
{
    if lines == 0 {
        skip
    } else {
        let r = remaining_after(skip, (lines - 1) as nat);
        if r == 0 {
            0
        } else {
            (r - 1) as nat
        }
    }
}

/// Following a log drops exactly the first `skip` lines: line `i` (counted
/// from zero) is shown if and only if `i >= skip`.
pub proof fn lemma_follow_drops_exactly_the_repeats(skip: nat, i: nat)
    ensures
        remaining_after(skip, i) == (if i < skip { (skip - i) as nat } else { 0 }),
        (remaining_after(skip, i) == 0) <==> i >= skip,
    decreases i,
{
    if i > 0 {
        lemma_follow_drops_exactly_the_repeats(skip, (i - 1) as nat);
    }
}

/// Decodes a raw frame of the older log stream: the payload after its
/// eight-byte header is rendered with the tag-based decoder; once no tag is
/// left open, everything rendered so far is taken out and split into its
/// timestamp and message. A frame no longer than its header is skipped.
pub fn decode_frame(perform: &mut TagPerform, frame: &Vec<u8>) -> (line: Option<(String, String)>)
    ensures
        frame@.len() <= 8 ==> line is None && final(perform).buffer() == old(perform).buffer()
            && final(perform).pending() == old(perform).pending(),
        frame@.len() > 8 ==> ({
            let events = ansi_events(utf8_encoding(lossy_utf8(frame@.skip(8))));
            let pending = tag_events_step(old(perform).pending(), events).1;
            let text = old(perform).buffer() + render_tags(tag_events_step(old(perform).pending(), events).0);
            &&& final(perform).pending() == pending
            &&& pending.len() == 0 ==> final(perform).buffer() == Seq::<char>::empty() && match spec_split_once(text, " "@) {
                Some((ts, msg)) => match line {
                    Some((a, b)) => a@ == ts && b@ == msg,
                    None => false,
                },
                None => line is None,
            }
            &&& pending.len() != 0 ==> final(perform).buffer() == text && line is None
        }),
{
    match frame_payload(frame) {
        Some(payload) => {
            if perform.decode(&payload) {
                let rendered = perform.move_out_buffer();
                split_timestamp(rendered.as_str())
            } else {
                None
            }
        },
        None => None,
    }
}

/// The lines of a text, split at each line break.
pub open spec fn split_lines(s: Seq<char>) -> Seq<Seq<char>>
    decreases s.len(),
{
    if s.len() == 0 {
        seq![Seq::empty()]
    } else if s.last() == '\n' {
        split_lines(s.drop_last()).push(Seq::empty())
    } else {
        let lines = split_lines(s.drop_last());
        lines.update(lines.len() - 1, lines.last().push(s.last()))
    }
}

/// The lines a log view shows: none for an empty text.
pub open spec fn view_lines(s: Seq<char>) -> Seq<Seq<char>> {
    if s.len() == 0 {
        Seq::empty()
    } else {
        split_lines(s)
    }
}

proof fn lemma_split_lines_nonempty(s: Seq<char>)
    ensures
        split_lines(s).len() >= 1,
    decreases s.len(),
{
    if s.len() > 0 {
        lemma_split_lines_nonempty(s.drop_last());
    }
}

proof fn lemma_split_lines_single(s: Seq<char>)
    requires
        newlines(s) == 0,
    ensures
        split_lines(s) == seq![s],
    decreases s.len(),
{
    if s.len() > 0 {
        let t = s.drop_last();
        assert(newlines(s) == newlines(t) + if s.last() == '\n' { 1nat } else { 0nat });
        assert(s.last() != '\n');
        lemma_split_lines_single(t);
        assert(t.push(s.last()) =~= s);
        assert(split_lines(t).len() == 1);
        assert(split_lines(s) == split_lines(t).update(0, split_lines(t).last().push(s.last())));
        assert(split_lines(s) =~= seq![s]);
    } else {
        assert(s =~= Seq::<char>::empty());
        assert(split_lines(s) =~= seq![s]);
    }
}

/// Joining two texts with a line break joins their lines.
proof fn lemma_split_lines_join(a: Seq<char>, b: Seq<char>)
    ensures
        split_lines(a + "\n"@ + b) == split_lines(a) + split_lines(b),
    decreases b.len(),
{
    reveal_strlit("\n");
    if b.len() == 0 {
        let j = a + "\n"@;
        assert(j + b =~= j);
        assert(j.drop_last() =~= a);
        assert(j.last() == '\n');
        assert(split_lines(b) =~= seq![Seq::<char>::empty()]);
        assert(split_lines(j) =~= split_lines(a) + split_lines(b));
    } else {
        lemma_split_lines_join(a, b.drop_last());
        let whole = a + "\n"@ + b;
        assert(whole.drop_last() =~= a + "\n"@ + b.drop_last());
        assert(whole.last() == b.last());
        lemma_split_lines_nonempty(b.drop_last());
        lemma_split_lines_nonempty(a);
        let la = split_lines(a);
        let lb = split_lines(b.drop_last());
        if b.last() == '\n' {
            assert(split_lines(whole) =~= la + lb.push(Seq::empty()));
        } else {
            assert((la + lb).update((la + lb).len() - 1, (la + lb).last().push(b.last())) =~= la + lb.update(
                lb.len() - 1,
                lb.last().push(b.last()),
            ));
        }
    }
}

/// A line inserted into a log view, with its timestamp, at the end or at the
/// start.
pub open spec fn entries_after(inserts: Seq<(Seq<char>, Seq<char>, bool)>) -> Seq<(Seq<char>, Seq<char>)>
    decreases inserts.len(),
{
    if inserts.len() == 0 {
        Seq::empty()
    } else {
        let (message, timestamp, at_end) = inserts.last();
        let before = entries_after(inserts.drop_last());
        if at_end {
            before.push((message, timestamp))
        } else {
            seq![(message, timestamp)] + before
        }
    }
}

/// The log view's text after a sequence of inserted lines.
pub open spec fn view_after(inserts: Seq<(Seq<char>, Seq<char>, bool)>) -> Seq<char>
    decreases inserts.len(),
{
    if inserts.len() == 0 {
        Seq::empty()
    } else {
        let (message, _, at_end) = inserts.last();
        spec_insert_line(view_after(inserts.drop_last()), message, at_end)
    }
}

/// The timestamps recorded for a sequence of inserted lines, as
/// `LogHistory::record` keeps them.
pub open spec fn timestamps_after(inserts: Seq<(Seq<char>, Seq<char>, bool)>) -> Seq<Seq<char>>
    decreases inserts.len(),
{
    if inserts.len() == 0 {
        Seq::empty()
    } else {
        let (_, timestamp, at_end) = inserts.last();
        let before = timestamps_after(inserts.drop_last());
        if at_end {
            before.push(timestamp)
        } else {
            seq![timestamp] + before
        }
    }
}

/// Each line of the log view is shown with its own timestamp: after any
/// sequence of non-empty single-line messages inserted at either end, line
/// `i` of the view is the message of entry `i` and timestamp `i` its
/// timestamp.
pub proof fn lemma_lines_keep_their_timestamps(inserts: Seq<(Seq<char>, Seq<char>, bool)>)
    requires
        forall|i: int| 0 <= i < inserts.len() ==> (#[trigger] inserts[i]).0.len() > 0 && newlines(inserts[i].0) == 0,
    ensures
        view_lines(view_after(inserts)) == entries_after(inserts).map_values(|e: (Seq<char>, Seq<char>)| e.0),
        timestamps_after(inserts) == entries_after(inserts).map_values(|e: (Seq<char>, Seq<char>)| e.1),
        (view_after(inserts).len() == 0) == (inserts.len() == 0),
    decreases inserts.len(),
{
    reveal_strlit("\n");
    if inserts.len() > 0 {
        let init = inserts.drop_last();
        assert forall|i: int| 0 <= i < init.len() implies (#[trigger] init[i]).0.len() > 0 && newlines(init[i].0) == 0 by {
            assert(init[i] == inserts[i]);
        }
        lemma_lines_keep_their_timestamps(init);
        let (message, timestamp, at_end) = inserts.last();
        assert(inserts[inserts.len() - 1] == inserts.last());
        let text = view_after(init);
        let before = entries_after(init);
        lemma_split_lines_single(message);
        if text.len() == 0 {
            assert(view_after(inserts) =~= message);
            assert(before.len() == 0);
        } else if at_end {
            lemma_split_lines_join(text, message);
            assert(view_after(inserts) =~= text + "\n"@ + message);
        } else {
            lemma_split_lines_join(message, text);
            assert(view_after(inserts) =~= message + "\n"@ + text);
        }
        assert(view_lines(view_after(inserts)) =~= entries_after(inserts).map_values(|e: (Seq<char>, Seq<char>)| e.0));
        assert(timestamps_after(inserts) =~= entries_after(inserts).map_values(|e: (Seq<char>, Seq<char>)| e.1));
    }
}

/// Moving a batch of fetched lines into the view keeps their order: the
/// batch comes newest first (as `take_batch` gives it) and each line is
/// inserted at the start, so the last `k` fetched lines end up as the first
/// `k` lines, in the order they were fetched, each with its timestamp.
pub proof fn lemma_moved_batch_in_order(inserts: Seq<(Seq<char>, Seq<char>, bool)>, fetched: Seq<(Seq<char>, Seq<char>)>, k: nat)
    requires
        k <= fetched.len(),
    ensures
        entries_after(inserts + Seq::new(k, |i: int| (fetched[fetched.len() - 1 - i].0, fetched[fetched.len() - 1 - i].1, false)))
            == fetched.subrange(fetched.len() - k, fetched.len() as int) + entries_after(inserts),
    decreases k,
{
    let n = fetched.len() as int;
    let batch = Seq::new(k, |i: int| (fetched[n - 1 - i].0, fetched[n - 1 - i].1, false));
    if k == 0 {
        assert(inserts + batch =~= inserts);
        assert(fetched.subrange(n, n) + entries_after(inserts) =~= entries_after(inserts));
    } else {
        lemma_moved_batch_in_order(inserts, fetched, (k - 1) as nat);
        let shorter = Seq::new((k - 1) as nat, |i: int| (fetched[n - 1 - i].0, fetched[n - 1 - i].1, false));
        assert((inserts + batch).drop_last() =~= inserts + shorter);
        assert((inserts + batch).last() == (fetched[n - k].0, fetched[n - k].1, false));
        assert(fetched.subrange(n - k, n) =~= seq![(fetched[n - k].0, fetched[n - k].1)] + fetched.subrange(n - k + 1, n));
    }
}

} // verus!
