//! Server-Sent Events (SSE).
//!
//! [`SseStream`] turns the bytes of a response body into events. It buffers
//! arbitrary frame boundaries, cuts the bytes into lines that end in `\n`,
//! groups the lines into events that end in a blank line, and reads the fields
//! `data`, `id` and `event` of each: one space behind the colon does not belong to
//! the value, and an `id` with a null character is ignored. It performs no I/O:
//! whoever drives it polls the body and hands the outcome to
//! [`SseStream::poll_next`].

use vstd::prelude::*;

use crate::error::Error;
use crate::text::{chars_of, optional_text, same_text, utf8_lossy};

verus! {

// ---------------------------------------------------------------------------
// Lines
// ---------------------------------------------------------------------------

/// The byte that ends a line.
pub const NEWLINE: u8 = 10;

/// What stands in `bytes` behind the last newline.
pub open spec fn unfinished_line(bytes: Seq<u8>) -> Seq<u8>
    decreases bytes.len(),
{
    if bytes.len() == 0 || bytes.last() == NEWLINE {
        Seq::empty()
    } else {
        unfinished_line(bytes.drop_last()).push(bytes.last())
    }
}

/// The lines of `bytes` that a newline ends, in order and without it.
pub open spec fn complete_lines(bytes: Seq<u8>) -> Seq<Seq<u8>>
    decreases bytes.len(),
{
    if bytes.len() == 0 {
        Seq::empty()
    } else if bytes.last() == NEWLINE {
        complete_lines(bytes.drop_last()).push(unfinished_line(bytes.drop_last()))
    } else {
        complete_lines(bytes.drop_last())
    }
}

/// The texts of lines that are given as bytes.
pub open spec fn line_texts(lines: Seq<Seq<u8>>) -> Seq<Seq<char>> {
    lines.map_values(|line: Seq<u8>| crate::text::lossy_text(line))
}

/// Whether `bytes` holds a newline.
pub open spec fn has_newline(bytes: Seq<u8>) -> bool {
    exists|i: int| 0 <= i < bytes.len() && #[trigger] bytes[i] == NEWLINE
}

/// Bytes without a newline are one unfinished line.
pub proof fn lemma_no_newline(bytes: Seq<u8>)
    requires
        !has_newline(bytes),
    ensures
        complete_lines(bytes) == Seq::<Seq<u8>>::empty(),
        unfinished_line(bytes) == bytes,
    decreases bytes.len(),
{
    if bytes.len() > 0 {
        let init = bytes.drop_last();
        assert(bytes[bytes.len() - 1] != NEWLINE);
        assert(!has_newline(init)) by {
            assert forall|i: int| 0 <= i < init.len() implies #[trigger] init[i] != NEWLINE by {
                assert(init[i] == bytes[i]);
            }
        }
        lemma_no_newline(init);
        assert(init.push(bytes.last()) =~= bytes);
    } else {
        assert(bytes =~= Seq::empty());
    }
}

/// The unfinished line is the end of the bytes and holds no newline.
pub proof fn lemma_unfinished_line_clean(bytes: Seq<u8>)
    ensures
        !has_newline(unfinished_line(bytes)),
        unfinished_line(bytes).len() <= bytes.len(),
        unfinished_line(bytes) == bytes.skip(bytes.len() - unfinished_line(bytes).len()),
    decreases bytes.len(),
{
    if bytes.len() > 0 && bytes.last() != NEWLINE {
        let init = bytes.drop_last();
        lemma_unfinished_line_clean(init);
        let rest = unfinished_line(init);
        assert forall|i: int| 0 <= i < rest.push(bytes.last()).len() implies #[trigger] rest.push(
            bytes.last(),
        )[i] != NEWLINE by {
            if i < rest.len() {
                assert(rest.push(bytes.last())[i] == rest[i]);
            }
        }
        assert(rest.push(bytes.last()) =~= bytes.skip(bytes.len() - rest.len() - 1));
    } else {
        assert(unfinished_line(bytes) =~= bytes.skip(bytes.len() as int));
    }
}

/// Cutting lines does not depend on where the bytes were split: what `left` left
/// unfinished, continued by `right`, gives the remaining lines.
pub proof fn lemma_lines_concat(left: Seq<u8>, right: Seq<u8>)
    ensures
        complete_lines(left + right) == complete_lines(left) + complete_lines(
            unfinished_line(left) + right,
        ),
        unfinished_line(left + right) == unfinished_line(unfinished_line(left) + right),
    decreases right.len(),
{
    let rest = unfinished_line(left);
    if right.len() == 0 {
        assert(left + right =~= left);
        assert(rest + right =~= rest);
        lemma_unfinished_line_clean(left);
        lemma_no_newline(rest);
        assert(complete_lines(left) + complete_lines(rest) =~= complete_lines(left));
    } else {
        let init = right.drop_last();
        lemma_lines_concat(left, init);
        assert((left + right).drop_last() =~= left + init);
        assert((rest + right).drop_last() =~= rest + init);
        assert((left + right).last() == right.last());
        assert((rest + right).last() == right.last());
        assert(complete_lines(left + right) =~= complete_lines(left) + complete_lines(rest + right));
    }
}

// ---------------------------------------------------------------------------
// Fields and events
// ---------------------------------------------------------------------------

/// The name of a line's field: what stands before the first colon, or the whole
/// line where there is none.
pub open spec fn field_name(line: Seq<char>) -> Seq<char> {
    match line.index_of_first(':') {
        Some(colon) => line.take(colon),
        None => line,
    }
}

/// The value of a line's field: what stands behind the first colon, without the
/// one space that it may start with.
pub open spec fn field_value(line: Seq<char>) -> Seq<char> {
    match line.index_of_first(':') {
        Some(colon) => {
            let rest = line.skip(colon + 1);
            if rest.len() > 0 && rest[0] == ' ' {
                rest.skip(1)
            } else {
                rest
            }
        },
        None => Seq::empty(),
    }
}

/// Whether a line sets an id: an id with a null character is ignored.
pub open spec fn sets_id(line: Seq<char>) -> bool {
    field_name(line) == "id"@ && !field_value(line).contains('\0')
}

/// The id that is set last, if one is.
pub open spec fn set_id(lines: Seq<Seq<char>>) -> Option<Seq<char>>
    decreases lines.len(),
{
    if lines.len() == 0 {
        None
    } else if sets_id(lines.last()) {
        Some(field_value(lines.last()))
    } else {
        set_id(lines.drop_last())
    }
}

/// The value of the last field of that name, if there is one.
pub open spec fn last_value(lines: Seq<Seq<char>>, name: Seq<char>) -> Option<Seq<char>>
    decreases lines.len(),
{
    if lines.len() == 0 {
        None
    } else if field_name(lines.last()) == name {
        Some(field_value(lines.last()))
    } else {
        last_value(lines.drop_last(), name)
    }
}

/// The values of all fields of that name, in order.
pub open spec fn all_values(lines: Seq<Seq<char>>, name: Seq<char>) -> Seq<Seq<char>>
    decreases lines.len(),
{
    if lines.len() == 0 {
        Seq::empty()
    } else if field_name(lines.last()) == name {
        all_values(lines.drop_last(), name).push(field_value(lines.last()))
    } else {
        all_values(lines.drop_last(), name)
    }
}

/// `parts` with a newline between each two.
pub open spec fn joined_lines(parts: Seq<Seq<char>>) -> Seq<char>
    decreases parts.len(),
{
    if parts.len() == 0 {
        Seq::empty()
    } else if parts.len() == 1 {
        parts[0]
    } else {
        joined_lines(parts.drop_last()).push('\n') + parts.last()
    }
}

/// An event as text.
#[verifier::ext_equal]
pub struct SseEventView {
    pub id: Option<Seq<char>>,
    pub event: Option<Seq<char>>,
    pub data: Seq<char>,
}

/// The event that `lines` describe.
pub open spec fn event_of(lines: Seq<Seq<char>>) -> SseEventView {
    SseEventView {
        id: set_id(lines),
        event: last_value(lines, "event"@),
        data: joined_lines(all_values(lines, "data"@)),
    }
}

/// A single Server-Sent Event: an id for reconnecting, a type, and a payload
/// that may hold newlines.
#[derive(Debug)]
pub struct SseEvent {
    id: Option<String>,
    event: Option<String>,
    data: String,
}

impl SseEvent {
    /// The event as text.
    pub closed spec fn view(&self) -> SseEventView {
        SseEventView {
            id: optional_text(self.id),
            event: optional_text(self.event),
            data: self.data@,
        }
    }

    /// The id of the event, if it has one.
    pub fn id(&self) -> (id: Option<&str>)
        ensures
            id is Some <==> self@.id is Some,
            id matches Some(text) ==> self@.id == Some(text@),
    {
        match &self.id {
            Some(id) => Some(id.as_str()),
            None => None,
        }
    }

    /// The type of the event, if it has one.
    pub fn event(&self) -> (event: Option<&str>)
        ensures
            event is Some <==> self@.event is Some,
            event matches Some(text) ==> self@.event == Some(text@),
    {
        match &self.event {
            Some(event) => Some(event.as_str()),
            None => None,
        }
    }

    /// The payload of the event.
    pub fn data(&self) -> (data: &str)
        ensures
            data@ == self@.data,
    {
        self.data.as_str()
    }
}

impl Default for SseEvent {
    /// The event without fields.
    fn default() -> (event: Self)
        ensures
            event@ == (SseEventView { id: None, event: None, data: Seq::empty() }),
    {
        SseEvent { id: None, event: None, data: String::new() }
    }
}

/// Splits a line into the name and the value of its field.
fn split_field(line: &str) -> (field: (String, String))
    ensures
        field.0@ == field_name(line@),
        field.1@ == field_value(line@),
{
    let chars = chars_of(line);
    let mut colon: usize = 0;
    while colon < chars.len() && chars[colon] != ':'
        invariant
            colon <= chars@.len(),
            forall|j: int| 0 <= j < colon ==> #[trigger] chars@[j] != ':',
        ensures
            colon <= chars@.len(),
            forall|j: int| 0 <= j < colon ==> #[trigger] chars@[j] != ':',
            colon < chars@.len() ==> chars@[colon as int] == ':',
        decreases chars@.len() - colon,
    {
        colon = colon + 1;
    }
    proof {
        line@.index_of_first_ensures(':');
        if colon < chars@.len() {
            assert(line@[colon as int] == ':');
            assert(line@.contains(':'));
        }
    }
    if colon < chars.len() {
        assert(line@.index_of_first(':') == Some(colon as int));
        let name = line.substring_char(0, colon).to_owned();
        let ghost rest = line@.skip(colon + 1);
        let start: usize = if colon + 1 < chars.len() && chars[colon + 1] == ' ' {
            colon + 2
        } else {
            colon + 1
        };
        let value = line.substring_char(start, chars.len()).to_owned();
        proof {
            assert(line@.subrange(0, colon as int) =~= line@.take(colon as int));
            if start == colon + 2 {
                assert(rest[0] == ' ');
                assert(line@.subrange(start as int, line@.len() as int) =~= rest.skip(1));
            } else {
                assert(rest.len() > 0 ==> rest[0] == chars@[colon + 1]);
                assert(line@.subrange(start as int, line@.len() as int) =~= rest);
            }
        }
        (name, value)
    } else {
        assert(line@.index_of_first(':') is None);
        (line.to_owned(), String::new())
    }
}

/// Whether `text` holds a null character.
fn has_null(text: &str) -> (found: bool)
    ensures
        found == text@.contains('\0'),
{
    let chars = chars_of(text);
    let mut i: usize = 0;
    while i < chars.len()
        invariant
            i <= chars@.len(),
            chars@ == text@,
            forall|j: int| 0 <= j < i ==> #[trigger] text@[j] != '\0',
        decreases chars@.len() - i,
    {
        if chars[i] == '\0' {
            assert(text@.contains('\0'));
            return true;
        }
        i = i + 1;
    }
    false
}

// ---------------------------------------------------------------------------
// The stream
// ---------------------------------------------------------------------------

/// The state of a stream: the bytes of the unfinished line, the lines that wait
/// for the end of their event, and the id that the server sent last.
#[verifier::ext_equal]
pub struct SseState {
    pub buffer: Seq<u8>,
    pub lines: Seq<Seq<char>>,
    pub last_event_id: Option<Seq<char>>,
}

/// The state of a stream that has read nothing.
pub open spec fn initial_state() -> SseState {
    SseState { buffer: Seq::empty(), lines: Seq::empty(), last_event_id: None }
}

/// The state after a frame of bytes.
pub open spec fn after_frame(state: SseState, frame: Seq<u8>) -> SseState {
    SseState {
        buffer: unfinished_line(state.buffer + frame),
        lines: state.lines + line_texts(complete_lines(state.buffer + frame)),
        last_event_id: state.last_event_id,
    }
}

/// The blank line.
pub open spec fn blank() -> Seq<char> {
    Seq::empty()
}

/// The id to remember after an event made of `lines`.
pub open spec fn id_after(lines: Seq<Seq<char>>, before: Option<Seq<char>>) -> Option<Seq<char>> {
    match set_id(lines) {
        Some(id) => Some(id),
        None => before,
    }
}

/// The next event and the state that taking it leaves, where a blank line ends
/// one.
pub open spec fn next_event(state: SseState) -> Option<(SseEventView, SseState)> {
    match state.lines.index_of_first(blank()) {
        Some(end) => {
            let lines = state.lines.take(end);
            Some(
                (
                    event_of(lines),
                    SseState {
                        buffer: state.buffer,
                        lines: state.lines.skip(end + 1),
                        last_event_id: id_after(lines, state.last_event_id),
                    },
                ),
            )
        },
        None => None,
    }
}

/// The texts of some strings.
pub open spec fn texts(strings: Seq<String>) -> Seq<Seq<char>> {
    strings.map_values(|string: String| string@)
}

/// What the driver of a stream reports to it.
pub enum SseInput {
    /// The consumer asks for the next event.
    Start,
    /// The body has no frame yet.
    BodyPending,
    /// The body gave a frame of data.
    Data(Vec<u8>),
    /// The body gave a frame that is not data.
    OtherFrame,
    /// The body failed.
    Failed(Error),
    /// The body has ended.
    BodyEnd,
}

/// What the driver of a stream does next.
pub enum SseAction {
    /// Poll the body and report the outcome.
    PollBody,
    /// Tell the consumer to wait, after asking to be polled again if `wake`.
    Pending { wake: bool },
    /// Give the consumer an event.
    Event(SseEvent),
    /// Give the consumer an error.
    Failed(Error),
    /// Tell the consumer that the stream has ended.
    End,
}

/// Whether `action` is the event that `state` offers next, with the state that
/// it leaves, or `otherwise` with `state` unchanged where there is none.
pub open spec fn emits_or(
    state: SseState,
    after: SseState,
    action: SseAction,
    otherwise: SseAction,
) -> bool {
    match next_event(state) {
        Some((event, rest)) => {
            &&& action matches SseAction::Event(given)
            &&& given@ == event
            &&& after == rest
        },
        None => action == otherwise && after == state,
    }
}

/// Whether a stream in state `before` may answer `input` with `action` and the
/// state `after`.
pub open spec fn poll_step(
    before: SseState,
    input: SseInput,
    after: SseState,
    action: SseAction,
) -> bool {
    match input {
        SseInput::Start => emits_or(before, after, action, SseAction::PollBody),
        SseInput::BodyPending => action == (SseAction::Pending { wake: false }) && after == before,
        SseInput::Data(frame) => emits_or(
            after_frame(before, frame@),
            after,
            action,
            SseAction::Pending { wake: true },
        ),
        SseInput::OtherFrame => action == (SseAction::Pending { wake: true }) && after == before,
        SseInput::Failed(error) => action == SseAction::Failed(error) && after == before,
        SseInput::BodyEnd => emits_or(before, after, action, SseAction::End),
    }
}

/// A streaming parser for Server-Sent Events.
///
/// Frames may split lines anywhere, so bytes are kept until their line is
/// complete and lines until their event is. An event is emitted when a blank
/// line is met.
pub struct SseStream {
    /// The bytes of the unfinished line.
    buffer: Vec<u8>,
    /// The lines that wait to be grouped into events.
    lines: Vec<String>,
    /// How many lines are known not to be blank.
    line_cursor: usize,
    /// The id that the server sent last.
    last_event_id: Option<String>,
}

impl SseStream {
    /// The state of the stream.
    pub closed spec fn view(&self) -> SseState {
        SseState {
            buffer: self.buffer@,
            lines: texts(self.lines@),
            last_event_id: optional_text(self.last_event_id),
        }
    }

    /// How many of the waiting lines are known not to be blank.
    pub closed spec fn cursor(&self) -> nat {
        self.line_cursor as nat
    }

    /// The buffer holds no complete line, and no line that the cursor has passed
    /// is blank.
    pub closed spec fn wf(&self) -> bool {
        &&& !has_newline(self.buffer@)
        &&& self.line_cursor <= self.lines@.len()
        &&& forall|i: int|
            0 <= i < self.line_cursor ==> (#[trigger] self.lines@[i])@ != blank()
    }

    /// A stream that has read nothing.
    pub fn new() -> (stream: Self)
        ensures
            stream.wf(),
            stream@ == initial_state(),
            stream.cursor() == 0,
    {
        let stream = SseStream {
            buffer: Vec::with_capacity(256),
            lines: Vec::new(),
            line_cursor: 0,
            last_event_id: None,
        };
        assert(stream@ =~= initial_state());
        stream
    }

    /// The id that the server sent last, if any.
    pub fn last_event_id(&self) -> (id: Option<&str>)
        ensures
            id is Some <==> self@.last_event_id is Some,
            id matches Some(text) ==> self@.last_event_id == Some(text@),
    {
        match &self.last_event_id {
            Some(id) => Some(id.as_str()),
            None => None,
        }
    }

    /// Adds a frame to the buffer and moves the lines that it completes to the
    /// waiting lines.
    pub fn append_frame(&mut self, frame: &[u8])
        requires
            old(self).wf(),
        ensures
            final(self).wf(),
            final(self)@ == after_frame(old(self)@, frame@),
            final(self).cursor() == old(self).cursor(),
    {
        let previous_length = self.buffer.len();
        self.buffer.extend_from_slice(frame);
        assert(self.buffer@ =~= old(self).buffer@ + frame@);
        let mut lines = self.take_complete_lines_since(previous_length);
        self.lines.append(&mut lines);
        assert(self@ =~= after_frame(old(self)@, frame@));
    }

    /// Removes the complete lines from the buffer and gives their texts, where no
    /// newline stands before `scan_from`.
    fn take_complete_lines_since(&mut self, scan_from: usize) -> (lines: Vec<String>)
        requires
            forall|i: int|
                0 <= i < scan_from && i < old(self).buffer@.len() ==> #[trigger] old(self).buffer@[i]
                    != NEWLINE,
        ensures
            final(self).buffer@ == unfinished_line(old(self).buffer@),
            texts(lines@) == line_texts(complete_lines(old(self).buffer@)),
            final(self).lines == old(self).lines,
            final(self).line_cursor == old(self).line_cursor,
            final(self).last_event_id == old(self).last_event_id,
            !has_newline(final(self).buffer@),
    {
        let ghost bytes = self.buffer@;
        let mut start: usize = 0;
        let mut lines: Vec<String> = Vec::new();
        let mut i: usize = if scan_from < self.buffer.len() {
            scan_from
        } else {
            self.buffer.len()
        };
        proof {
            lemma_no_newline(bytes.take(i as int));
            assert(texts(lines@) =~= line_texts(complete_lines(bytes.take(i as int))));
        }
        while i < self.buffer.len()
            invariant
                self.buffer@ == bytes,
                self.lines == old(self).lines,
                self.line_cursor == old(self).line_cursor,
                self.last_event_id == old(self).last_event_id,
                start <= i <= bytes.len(),
                unfinished_line(bytes.take(i as int)) == bytes.subrange(start as int, i as int),
                texts(lines@) == line_texts(complete_lines(bytes.take(i as int))),
            decreases bytes.len() - i,
        {
            let ghost next = bytes.take(i + 1);
            assert(next.drop_last() =~= bytes.take(i as int));
            assert(next.last() == bytes[i as int]);
            let byte: u8 = self.buffer[i];
            if byte == NEWLINE {
                let ghost cut = complete_lines(bytes.take(i as int));
                let line_bytes = vstd::slice::slice_subrange(self.buffer.as_slice(), start, i);
                let line = utf8_lossy(line_bytes);
                assert(texts(lines@.push(line)) =~= texts(lines@).push(line@));
                assert(line_texts(cut.push(line_bytes@)) =~= line_texts(cut).push(line@));
                lines.push(line);
                start = i + 1;
                assert(unfinished_line(next) =~= bytes.subrange(start as int, i + 1));
            } else {
                assert(unfinished_line(next) =~= bytes.subrange(start as int, i + 1));
            }
            i = i + 1;
        }
        assert(bytes.take(i as int) =~= bytes);
        let rest = self.buffer.split_off(start);
        self.buffer = rest;
        proof {
            lemma_unfinished_line_clean(bytes);
        }
        lines
    }

    /// Takes the next complete event from the waiting lines, if a blank line ends
    /// one.
    pub fn advance_line_cursor(&mut self) -> (event: Option<SseEvent>)
        requires
            old(self).wf(),
        ensures
            final(self).wf(),
            match next_event(old(self)@) {
                Some((expected, rest)) => {
                    &&& event matches Some(given)
                    &&& given@ == expected
                    &&& final(self)@ == rest
                    &&& final(self).cursor() == 0
                },
                None => {
                    &&& event is None
                    &&& final(self)@ == old(self)@
                    &&& final(self).cursor() == old(self)@.lines.len()
                },
            },
    {
        let ghost before = self@;
        let mut end: usize = self.line_cursor;
        while end < self.lines.len() && !self.lines[end].as_str().is_empty()
            invariant
                *self == *old(self),
                end <= self.lines@.len(),
                forall|i: int| 0 <= i < end ==> (#[trigger] self.lines@[i])@ != blank(),
            ensures
                *self == *old(self),
                end <= self.lines@.len(),
                forall|i: int| 0 <= i < end ==> (#[trigger] self.lines@[i])@ != blank(),
                end < self.lines@.len() ==> self.lines@[end as int]@ == blank(),
            decreases self.lines@.len() - end,
        {
            assert(self.lines@[end as int]@.len() != 0);
            end = end + 1;
        }
        proof {
            before.lines.index_of_first_ensures(blank());
            assert forall|i: int| 0 <= i < end implies #[trigger] before.lines[i] != blank() by {
                assert(before.lines[i] == self.lines@[i]@);
            }
            if end < self.lines@.len() {
                assert(before.lines[end as int] == blank());
                assert(before.lines.contains(blank()));
            }
        }
        if end == self.lines.len() {
            self.line_cursor = end;
            return None;
        }
        let mut message_lines = self.lines.split_off(end + 1);
        std::mem::swap(&mut message_lines, &mut self.lines);
        self.line_cursor = 0;
        message_lines.truncate(end);
        let ghost lines = texts(message_lines@);
        assert(lines =~= before.lines.take(end as int));
        let event = self.build_event_from_lines(message_lines);
        assert(self@.lines =~= before.lines.skip(end + 1));
        Some(event)
    }

    /// Reads the fields of an event and remembers its id.
    fn build_event_from_lines(&mut self, message_lines: Vec<String>) -> (event: SseEvent)
        ensures
            event@ == event_of(texts(message_lines@)),
            final(self).buffer == old(self).buffer,
            final(self).lines == old(self).lines,
            final(self).line_cursor == old(self).line_cursor,
            final(self)@.last_event_id == id_after(texts(message_lines@), old(self)@.last_event_id),
    {
        let ghost all = texts(message_lines@);
        let ghost id_before = self@.last_event_id;
        let mut event = SseEvent::default();
        let mut has_data: bool = false;
        let mut i: usize = 0;
        assert(all.take(0) =~= Seq::empty());
        while i < message_lines.len()
            invariant
                all == texts(message_lines@),
                i <= all.len(),
                event@ == event_of(all.take(i as int)),
                has_data == (all_values(all.take(i as int), "data"@).len() > 0),
                self.buffer == old(self).buffer,
                self.lines == old(self).lines,
                self.line_cursor == old(self).line_cursor,
                self@.last_event_id == id_after(all.take(i as int), id_before),
            decreases all.len() - i,
        {
            let ghost next = all.take(i + 1);
            let ghost values = all_values(all.take(i as int), "data"@);
            let line = message_lines[i].as_str();
            assert(next.drop_last() =~= all.take(i as int));
            assert(next.last() == line@);
            let (name, value) = split_field(line);
            proof {
                reveal_strlit("data");
                reveal_strlit("id");
                reveal_strlit("event");
                assert("data"@.len() != "id"@.len());
                assert("event"@.len() != "id"@.len());
                assert("data"@.len() != "event"@.len());
            }
            if same_text(name.as_str(), "data") {
                if has_data {
                    event.data.append("\n");
                }
                event.data.append(value.as_str());
                has_data = true;
                proof {
                    reveal_strlit("\n");
                    assert(all_values(next, "data"@) =~= values.push(value@));
                    assert(values.push(value@).drop_last() =~= values);
                    if values.len() > 0 {
                        assert(joined_lines(values).push('\n') =~= joined_lines(values) + "\n"@);
                    } else {
                        assert(joined_lines(values) + value@ =~= value@);
                    }
                }
            } else if same_text(name.as_str(), "id") {
                if !has_null(value.as_str()) {
                    self.last_event_id = Some(value.clone());
                    event.id = Some(value);
                }
            } else if same_text(name.as_str(), "event") {
                event.event = Some(value);
            }
            assert(event@ =~= event_of(next));
            i = i + 1;
        }
        assert(all.take(i as int) =~= all);
        event
    }

    /// One step of polling for the next event.
    ///
    /// A poll begins with [`SseInput::Start`]. Where that asks for the body to be
    /// polled, the outcome is reported by a second call.
    pub fn poll_next(&mut self, input: SseInput) -> (action: SseAction)
        requires
            old(self).wf(),
        ensures
            final(self).wf(),
            poll_step(old(self)@, input, final(self)@, action),
    {
        match input {
            SseInput::Start => match self.advance_line_cursor() {
                Some(event) => SseAction::Event(event),
                None => SseAction::PollBody,
            },
            SseInput::BodyPending => SseAction::Pending { wake: false },
            SseInput::Data(frame) => {
                self.append_frame(frame.as_slice());
                match self.advance_line_cursor() {
                    Some(event) => SseAction::Event(event),
                    None => SseAction::Pending { wake: true },
                }
            },
            SseInput::OtherFrame => SseAction::Pending { wake: true },
            SseInput::Failed(error) => SseAction::Failed(error),
            SseInput::BodyEnd => match self.advance_line_cursor() {
                Some(event) => SseAction::Event(event),
                None => SseAction::End,
            },
        }
    }
}

} // verus!
