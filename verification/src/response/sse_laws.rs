//! Laws of Server-Sent Event streams.

use vstd::prelude::*;
use vstd::utf8::{encode_scalar, encode_utf8, valid_utf8};

use crate::response::sse::{
    after_frame, all_values, blank, complete_lines, event_of, field_name, field_value,
    has_newline, id_after, initial_state, joined_lines, last_value, lemma_lines_concat,
    lemma_no_newline, lemma_unfinished_line_clean, line_texts, next_event, poll_step, set_id,
    sets_id, unfinished_line, SseAction, SseEventView, SseInput, SseState, NEWLINE,
};
use crate::text::{lossy_text, repaired_text};

verus! {

/// Two frames are worth one: a stream is in the same state whether bytes arrive
/// together or split at any place.
pub proof fn law_frames_merge(state: SseState, first: Seq<u8>, second: Seq<u8>)
    ensures
        after_frame(after_frame(state, first), second) == after_frame(state, first + second),
{
    let left = state.buffer + first;
    lemma_lines_concat(left, second);
    assert(left + second =~= state.buffer + (first + second));
    assert(line_texts(complete_lines(left) + complete_lines(unfinished_line(left) + second))
        =~= line_texts(complete_lines(left)) + line_texts(
        complete_lines(unfinished_line(left) + second),
    ));
    assert(after_frame(after_frame(state, first), second) =~= after_frame(state, first + second));
}

/// A frame without bytes changes nothing.
pub proof fn law_empty_frame(state: SseState)
    requires
        !has_newline(state.buffer),
    ensures
        after_frame(state, Seq::empty()) == state,
{
    assert(state.buffer + Seq::<u8>::empty() =~= state.buffer);
    lemma_no_newline(state.buffer);
    assert(after_frame(state, Seq::empty()) =~= state);
}

/// An event is the lines up to a blank line: lines without a blank one, then a
/// blank one, are taken as one event and the lines behind stay.
pub proof fn law_blank_line_ends_event(state: SseState, block: Seq<Seq<char>>, rest: Seq<Seq<char>>)
    requires
        forall|i: int| 0 <= i < block.len() ==> #[trigger] block[i] != blank(),
        state.lines == block.push(blank()) + rest,
    ensures
        next_event(state) == Some(
            (
                event_of(block),
                SseState {
                    buffer: state.buffer,
                    lines: rest,
                    last_event_id: id_after(block, state.last_event_id),
                },
            ),
        ),
{
    let lines = state.lines;
    lines.index_of_first_ensures(blank());
    assert(lines[block.len() as int] == blank());
    assert(lines.contains(blank()));
    assert forall|i: int| 0 <= i < block.len() implies #[trigger] lines[i] != blank() by {
        assert(lines[i] == block[i]);
    }
    assert(lines.index_of_first(blank()) == Some(block.len() as int));
    assert(lines.take(block.len() as int) =~= block);
    assert(lines.skip(block.len() as int + 1) =~= rest);
}

/// An event that is complete is not changed by later frames: taking it before or
/// after a frame gives the same event and the same state.
pub proof fn law_event_before_frame(
    state: SseState,
    event: SseEventView,
    rest: SseState,
    frame: Seq<u8>,
)
    requires
        next_event(state) == Some((event, rest)),
    ensures
        next_event(after_frame(state, frame)) == Some((event, after_frame(rest, frame))),
{
    let lines = state.lines;
    lines.index_of_first_ensures(blank());
    let end = lines.index_of_first(blank()).unwrap();
    let block = lines.take(end);
    let behind = lines.skip(end + 1);
    let more = line_texts(complete_lines(state.buffer + frame));
    let after = after_frame(state, frame);
    assert(after.lines =~= block.push(blank()) + (behind + more));
    law_blank_line_ends_event(after, block, behind + more);
    let taken = SseState {
        buffer: after.buffer,
        lines: behind + more,
        last_event_id: id_after(block, state.last_event_id),
    };
    assert(taken =~= after_frame(rest, frame));
}

/// Taking an event leaves fewer lines.
proof fn lemma_next_event_decreases(state: SseState)
    ensures
        next_event(state) matches Some((event, rest)) ==> rest.lines.len() < state.lines.len(),
{
    state.lines.index_of_first_ensures(blank());
}

/// The events that a stream can emit without reading more.
pub open spec fn ready_events(state: SseState) -> Seq<SseEventView>
    decreases state.lines.len(),
    via ready_events_decreases
{
    match next_event(state) {
        Some((event, rest)) => seq![event] + ready_events(rest),
        None => Seq::empty(),
    }
}

#[via_fn]
proof fn ready_events_decreases(state: SseState) {
    lemma_next_event_decreases(state);
}

/// The state when those events have been emitted.
pub open spec fn drained(state: SseState) -> SseState
    decreases state.lines.len(),
    via drained_decreases
{
    match next_event(state) {
        Some((event, rest)) => drained(rest),
        None => state,
    }
}

#[via_fn]
proof fn drained_decreases(state: SseState) {
    lemma_next_event_decreases(state);
}

/// The events that a stream emits when every complete one is taken before each
/// further frame is read.
pub open spec fn emitted(state: SseState, frames: Seq<Seq<u8>>) -> Seq<SseEventView>
    decreases frames.len(),
{
    if frames.len() == 0 {
        ready_events(state)
    } else {
        ready_events(state) + emitted(after_frame(drained(state), frames[0]), frames.skip(1))
    }
}

/// The state in which those frames leave the stream.
pub open spec fn final_state(state: SseState, frames: Seq<Seq<u8>>) -> SseState
    decreases frames.len(),
{
    if frames.len() == 0 {
        drained(state)
    } else {
        final_state(after_frame(drained(state), frames[0]), frames.skip(1))
    }
}

/// All bytes of some frames.
pub open spec fn all_bytes(frames: Seq<Seq<u8>>) -> Seq<u8>
    decreases frames.len(),
{
    if frames.len() == 0 {
        Seq::empty()
    } else {
        frames[0] + all_bytes(frames.skip(1))
    }
}

/// Taking the complete events before a frame or after it makes no difference.
proof fn lemma_drain_then_frame(state: SseState, frame: Seq<u8>)
    ensures
        ready_events(after_frame(state, frame)) == ready_events(state) + ready_events(
            after_frame(drained(state), frame),
        ),
        drained(after_frame(state, frame)) == drained(after_frame(drained(state), frame)),
    decreases state.lines.len(),
{
    match next_event(state) {
        Some((event, rest)) => {
            lemma_next_event_decreases(state);
            law_event_before_frame(state, event, rest, frame);
            lemma_drain_then_frame(rest, frame);
            assert(ready_events(after_frame(state, frame)) =~= ready_events(state) + ready_events(
                after_frame(drained(state), frame),
            ));
        },
        None => {
            assert(ready_events(state) + ready_events(after_frame(state, frame)) =~= ready_events(
                after_frame(state, frame),
            ));
        },
    }
}

/// Taking events leaves the unfinished line, and in the end no event.
proof fn lemma_drained_buffer(state: SseState)
    ensures
        drained(state).buffer == state.buffer,
        next_event(drained(state)) is None,
    decreases state.lines.len(),
{
    match next_event(state) {
        Some((event, rest)) => {
            lemma_next_event_decreases(state);
            lemma_drained_buffer(rest);
        },
        None => {},
    }
}

/// The events of a body do not depend on how its bytes are split into frames:
/// they are those of all its bytes in one frame, and the stream ends in the same
/// state.
pub proof fn law_events_independent_of_frames(state: SseState, frames: Seq<Seq<u8>>)
    requires
        !has_newline(state.buffer),
    ensures
        emitted(state, frames) == ready_events(after_frame(state, all_bytes(frames))),
        final_state(state, frames) == drained(after_frame(state, all_bytes(frames))),
    decreases frames.len(),
{
    if frames.len() == 0 {
        law_empty_frame(state);
    } else {
        let start = drained(state);
        let next = after_frame(start, frames[0]);
        let rest = all_bytes(frames.skip(1));
        lemma_drained_buffer(state);
        lemma_unfinished_line_clean(start.buffer + frames[0]);
        law_events_independent_of_frames(next, frames.skip(1));
        law_frames_merge(start, frames[0], rest);
        lemma_drain_then_frame(state, all_bytes(frames));
    }
}

/// One call of a stream: what was reported to it, what it answered, and the state
/// in which it was left.
pub struct Poll {
    pub input: SseInput,
    pub action: SseAction,
    pub after: SseState,
}

/// The state in which some calls leave a stream.
pub open spec fn polled(state: SseState, polls: Seq<Poll>) -> SseState {
    if polls.len() == 0 {
        state
    } else {
        polls.last().after
    }
}

/// Whether a stream in `state` can have been called like this.
pub open spec fn is_run(state: SseState, polls: Seq<Poll>) -> bool
    decreases polls.len(),
{
    polls.len() == 0 || {
        &&& is_run(state, polls.drop_last())
        &&& poll_step(
            polled(state, polls.drop_last()),
            polls.last().input,
            polls.last().after,
            polls.last().action,
        )
    }
}

/// The data that the calls reported.
pub open spec fn reported(polls: Seq<Poll>) -> Seq<u8>
    decreases polls.len(),
{
    if polls.len() == 0 {
        Seq::empty()
    } else {
        match polls.last().input {
            SseInput::Data(frame) => reported(polls.drop_last()) + frame@,
            _ => reported(polls.drop_last()),
        }
    }
}

/// The events that the calls gave.
pub open spec fn given(polls: Seq<Poll>) -> Seq<SseEventView>
    decreases polls.len(),
{
    if polls.len() == 0 {
        Seq::empty()
    } else {
        match polls.last().action {
            SseAction::Event(event) => given(polls.drop_last()).push(event@),
            _ => given(polls.drop_last()),
        }
    }
}

/// However a stream is polled, no event is lost, repeated or out of order: those
/// that it gave, followed by those that it can still give, are the events of all
/// the data that came.
pub proof fn law_polling_gives_events(state: SseState, polls: Seq<Poll>)
    requires
        !has_newline(state.buffer),
        is_run(state, polls),
    ensures
        given(polls) + ready_events(polled(state, polls)) == ready_events(
            after_frame(state, reported(polls)),
        ),
        drained(polled(state, polls)) == drained(after_frame(state, reported(polls))),
    decreases polls.len(),
{
    if polls.len() == 0 {
        law_empty_frame(state);
        assert(Seq::<SseEventView>::empty() + ready_events(state) =~= ready_events(state));
    } else {
        let before = polls.drop_last();
        let last = polls.last();
        let start = polled(state, before);
        let whole = after_frame(state, reported(before));
        law_polling_gives_events(state, before);
        match last.input {
            SseInput::Data(frame) => {
                let fed = after_frame(start, frame@);
                law_frames_merge(state, reported(before), frame@);
                lemma_drain_then_frame(start, frame@);
                lemma_drain_then_frame(whole, frame@);
                let more = ready_events(after_frame(drained(start), frame@));
                assert(given(before) + (ready_events(start) + more) =~= (given(before)
                    + ready_events(start)) + more);
                lemma_taken_event(given(before), fed);
            },
            _ => {
                lemma_taken_event(given(before), start);
            },
        }
    }
}

/// Giving the next event moves it from those that can be given to those that were.
proof fn lemma_taken_event(before: Seq<SseEventView>, state: SseState)
    ensures
        next_event(state) matches Some((event, rest)) ==> before.push(event) + ready_events(rest)
            == before + ready_events(state) && drained(rest) == drained(state),
{
    match next_event(state) {
        Some((event, rest)) => {
            assert(before.push(event) + ready_events(rest) =~= before + (seq![event]
                + ready_events(rest)));
        },
        None => {},
    }
}

/// The id of the last event that has one, or `before` where none has.
pub open spec fn last_id(events: Seq<SseEventView>, before: Option<Seq<char>>) -> Option<Seq<char>>
    decreases events.len(),
{
    if events.len() == 0 {
        before
    } else {
        last_id(
            events.skip(1),
            if events[0].id is Some {
                events[0].id
            } else {
                before
            },
        )
    }
}

/// The remembered id is that of the last emitted event that carried one.
pub proof fn law_last_event_id(state: SseState)
    ensures
        drained(state).last_event_id == last_id(ready_events(state), state.last_event_id),
    decreases state.lines.len(),
{
    match next_event(state) {
        Some((event, rest)) => {
            lemma_next_event_decreases(state);
            law_last_event_id(rest);
            assert((seq![event] + ready_events(rest)).skip(1) =~= ready_events(rest));
        },
        None => {},
    }
}

/// A body that ends within an event emits nothing for it and forgets no id: the
/// stream ends and its state stays.
pub proof fn law_incomplete_event_discarded(before: SseState, after: SseState, action: SseAction)
    requires
        !before.lines.contains(blank()),
        poll_step(before, SseInput::BodyEnd, after, action),
    ensures
        action is End,
        after == before,
{
    before.lines.index_of_first_ensures(blank());
}

/// A line whose field is not `data`, `id` or `event` does not matter.
pub proof fn law_unknown_field_ignored(
    before: Seq<Seq<char>>,
    line: Seq<char>,
    after: Seq<Seq<char>>,
)
    requires
        field_name(line) != "data"@,
        field_name(line) != "id"@,
        field_name(line) != "event"@,
    ensures
        event_of(before.push(line) + after) == event_of(before + after),
{
    lemma_other_field(before, line, after, "data"@);
    lemma_no_id(before, line, after);
    lemma_other_field(before, line, after, "event"@);
}

/// An `id` with a null character does not matter, neither for the event nor for
/// the id that is remembered.
pub proof fn law_null_id_ignored(
    before: Seq<Seq<char>>,
    line: Seq<char>,
    after: Seq<Seq<char>>,
    remembered: Option<Seq<char>>,
)
    requires
        field_name(line) == "id"@,
        field_value(line).contains('\0'),
    ensures
        event_of(before.push(line) + after) == event_of(before + after),
        id_after(before.push(line) + after, remembered) == id_after(before + after, remembered),
{
    reveal_strlit("data");
    reveal_strlit("id");
    reveal_strlit("event");
    assert("data"@.len() != "id"@.len());
    assert("event"@.len() != "id"@.len());
    lemma_other_field(before, line, after, "data"@);
    lemma_no_id(before, line, after);
    lemma_other_field(before, line, after, "event"@);
}

/// A line that sets no id does not matter for the id.
proof fn lemma_no_id(before: Seq<Seq<char>>, line: Seq<char>, after: Seq<Seq<char>>)
    requires
        !sets_id(line),
    ensures
        set_id(before.push(line) + after) == set_id(before + after),
    decreases after.len(),
{
    let with = before.push(line) + after;
    let without = before + after;
    if after.len() == 0 {
        assert(with =~= before.push(line));
        assert(without =~= before);
        assert(with.drop_last() =~= before);
    } else {
        lemma_no_id(before, line, after.drop_last());
        assert(with.drop_last() =~= before.push(line) + after.drop_last());
        assert(without.drop_last() =~= before + after.drop_last());
        assert(with.last() == without.last());
    }
}

/// A line does not matter for the values of a field that it does not name.
proof fn lemma_other_field(
    before: Seq<Seq<char>>,
    line: Seq<char>,
    after: Seq<Seq<char>>,
    name: Seq<char>,
)
    requires
        field_name(line) != name,
    ensures
        last_value(before.push(line) + after, name) == last_value(before + after, name),
        all_values(before.push(line) + after, name) == all_values(before + after, name),
    decreases after.len(),
{
    let with = before.push(line) + after;
    let without = before + after;
    if after.len() == 0 {
        assert(with =~= before.push(line));
        assert(without =~= before);
        assert(with.drop_last() =~= before);
    } else {
        lemma_other_field(before, line, after.drop_last(), name);
        assert(with.drop_last() =~= before.push(line) + after.drop_last());
        assert(without.drop_last() =~= before + after.drop_last());
        assert(with.last() == without.last());
    }
}

/// A field line: the name, a colon, a space and the value.
pub open spec fn field_line(name: Seq<char>, value: Seq<char>) -> Seq<char> {
    name.push(':').push(' ') + value
}

/// A field line is read back as it was written, where the name holds no colon.
pub proof fn law_field_read_back(name: Seq<char>, value: Seq<char>)
    requires
        !name.contains(':'),
    ensures
        field_name(field_line(name, value)) == name,
        field_value(field_line(name, value)) == value,
{
    let line = field_line(name, value);
    line.index_of_first_ensures(':');
    assert(line[name.len() as int] == ':');
    assert(line.contains(':'));
    assert forall|i: int| 0 <= i < name.len() implies #[trigger] line[i] != ':' by {
        assert(line[i] == name[i]);
        assert(name.contains(name[i]));
    }
    assert(line.index_of_first(':') == Some(name.len() as int));
    assert(line.take(name.len() as int) =~= name);
    let behind = line.skip(name.len() as int + 1);
    assert(behind[0] == ' ');
    assert(behind.skip(1) =~= value);
}

/// The payload of an event is the values of its `data` lines, with a newline
/// between each two and none at the end.
pub proof fn law_data_lines_joined(values: Seq<Seq<char>>)
    ensures
        event_of(values.map_values(|value: Seq<char>| field_line("data"@, value))) == (SseEventView {
            id: None,
            event: None,
            data: joined_lines(values),
        }),
{
    reveal_strlit("data");
    reveal_strlit("id");
    reveal_strlit("event");
    assert("data"@.len() != "id"@.len());
    assert("data"@.len() != "event"@.len());
    lemma_data_lines(values);
}

/// The fields of some `data` lines.
proof fn lemma_data_lines(values: Seq<Seq<char>>)
    requires
        "data"@ != "id"@,
        "data"@ != "event"@,
    ensures
        ({
            let lines = values.map_values(|value: Seq<char>| field_line("data"@, value));
            &&& all_values(lines, "data"@) == values
            &&& set_id(lines) is None
            &&& last_value(lines, "event"@) is None
        }),
    decreases values.len(),
{
    let lines = values.map_values(|value: Seq<char>| field_line("data"@, value));
    if values.len() > 0 {
        let init = values.drop_last();
        lemma_data_lines(init);
        assert(lines.drop_last() =~= init.map_values(
            |value: Seq<char>| field_line("data"@, value),
        ));
        assert(values[values.len() - 1] == values.last());
        assert(!"data"@.contains(':')) by {
            reveal_strlit("data");
        }
        law_field_read_back("data"@, values.last());
        assert(init.push(values.last()) =~= values);
    } else {
        assert(all_values(lines, "data"@) =~= values);
    }
}

/// A text without newlines is encoded without newlines.
proof fn lemma_encoded_without_newline(text: Seq<char>)
    requires
        !text.contains('\n'),
    ensures
        !has_newline(encode_utf8(text)),
    decreases text.len(),
{
    if text.len() > 0 {
        let first = text[0];
        let rest = text.drop_first();
        assert(text.contains(first));
        assert(!rest.contains('\n')) by {
            assert forall|i: int| 0 <= i < rest.len() implies #[trigger] rest[i] != '\n' by {
                assert(rest[i] == text[i + 1]);
                assert(text.contains(text[i + 1]));
            }
        }
        lemma_encoded_without_newline(rest);
        let code = first as u32;
        vstd::utf8::char_is_scalar(first);
        vstd::utf8::char_u32_cast(first, code);
        assert(10u32 as char == '\n');
        lemma_encoded_scalar(code);
        let bytes = encode_utf8(text);
        assert(bytes == encode_scalar(code) + encode_utf8(rest));
        assert forall|i: int| 0 <= i < bytes.len() implies #[trigger] bytes[i] != NEWLINE by {
            if i < encode_scalar(code).len() {
                assert(bytes[i] == encode_scalar(code)[i]);
            } else {
                assert(bytes[i] == encode_utf8(rest)[i - encode_scalar(code).len()]);
            }
        }
    }
}

/// No byte of an encoded character is a newline, unless the character is one.
proof fn lemma_encoded_scalar(code: u32)
    requires
        vstd::utf8::is_scalar(code),
        code != 10,
    ensures
        !has_newline(encode_scalar(code)),
{
    assert(code < 0x80 ==> (code & 0x7f) as u8 == code as u8) by (bit_vector);
    assert(code < 0x80 && code != 10 ==> code as u8 != 10) by (bit_vector);
    assert((0xc0u8 | ((code >> 6) & 0x1f) as u8) != 10) by (bit_vector);
    assert((0xe0u8 | ((code >> 12) & 0x0f) as u8) != 10) by (bit_vector);
    assert((0xf0u8 | ((code >> 18) & 0x7) as u8) != 10) by (bit_vector);
    assert((0x80u8 | (code & 0x3f) as u8) != 10) by (bit_vector);
    assert((0x80u8 | ((code >> 6) & 0x3f) as u8) != 10) by (bit_vector);
    assert((0x80u8 | ((code >> 12) & 0x3f) as u8) != 10) by (bit_vector);
}

/// The bytes of lines that are sent as UTF-8, each with a newline behind it.
pub open spec fn sent_lines(lines: Seq<Seq<char>>) -> Seq<u8>
    decreases lines.len(),
{
    if lines.len() == 0 {
        Seq::empty()
    } else {
        (sent_lines(lines.drop_last()) + encode_utf8(lines.last())).push(NEWLINE)
    }
}

/// Lines that are sent as UTF-8 are read back as they were sent.
pub proof fn law_lines_read_back(lines: Seq<Seq<char>>)
    requires
        forall|i: int| 0 <= i < lines.len() ==> !(#[trigger] lines[i]).contains('\n'),
    ensures
        after_frame(initial_state(), sent_lines(lines)) == (SseState {
            buffer: Seq::empty(),
            lines,
            last_event_id: None,
        }),
    decreases lines.len(),
{
    let bytes = sent_lines(lines);
    assert(initial_state().buffer + bytes =~= bytes);
    if lines.len() == 0 {
        assert(after_frame(initial_state(), bytes) =~= (SseState {
            buffer: Seq::empty(),
            lines,
            last_event_id: None,
        }));
    } else {
        let init = lines.drop_last();
        assert forall|i: int| 0 <= i < init.len() implies !(#[trigger] init[i]).contains('\n') by {
            assert(init[i] == lines[i]);
        }
        law_lines_read_back(init);
        let head = sent_lines(init);
        assert(initial_state().buffer + head =~= head);
        let last = encode_utf8(lines.last());
        assert(lines[lines.len() - 1] == lines.last());
        lemma_encoded_without_newline(lines.last());
        lemma_lines_concat(head, last);
        assert(unfinished_line(head) =~= Seq::<u8>::empty());
        assert(unfinished_line(head) + last =~= last);
        lemma_no_newline(last);
        assert(bytes.drop_last() =~= head + last);
        assert(complete_lines(head) + Seq::<Seq<u8>>::empty() =~= complete_lines(head));
        assert(complete_lines(bytes) == complete_lines(head).push(last));
        vstd::utf8::encode_utf8_valid_utf8(lines.last());
        vstd::utf8::encode_utf8_decode_utf8(lines.last());
        assert(lossy_text(last) == lines.last());
        assert(line_texts(complete_lines(head).push(last)) =~= line_texts(complete_lines(head)).push(
            lines.last(),
        ));
        assert(initial_state().lines + line_texts(complete_lines(head)) =~= line_texts(
            complete_lines(head),
        ));
        assert(init.push(lines.last()) =~= lines);
        assert(after_frame(initial_state(), bytes) =~= (SseState {
            buffer: Seq::empty(),
            lines,
            last_event_id: None,
        }));
    }
}

/// The lines of some events, each event followed by a blank line.
pub open spec fn block_lines(blocks: Seq<Seq<Seq<char>>>) -> Seq<Seq<char>>
    decreases blocks.len(),
{
    if blocks.len() == 0 {
        Seq::empty()
    } else {
        blocks[0].push(blank()) + block_lines(blocks.skip(1))
    }
}

/// Whether `lines` can stand in an event: none is blank or holds a newline.
pub open spec fn is_block(lines: Seq<Seq<char>>) -> bool {
    forall|i: int|
        0 <= i < lines.len() ==> (#[trigger] lines[i]) != blank() && !lines[i].contains('\n')
}

/// The lines that wait are grouped at the blank lines, one event for each.
pub proof fn law_blocks_become_events(state: SseState, blocks: Seq<Seq<Seq<char>>>)
    requires
        forall|i: int| 0 <= i < blocks.len() ==> is_block(#[trigger] blocks[i]),
        state.lines == block_lines(blocks),
    ensures
        ready_events(state) == blocks.map_values(|lines: Seq<Seq<char>>| event_of(lines)),
    decreases blocks.len(),
{
    let events = blocks.map_values(|lines: Seq<Seq<char>>| event_of(lines));
    if blocks.len() == 0 {
        state.lines.index_of_first_ensures(blank());
        assert(ready_events(state) =~= events);
    } else {
        let rest = blocks.skip(1);
        assert(is_block(blocks[0]));
        law_blank_line_ends_event(state, blocks[0], block_lines(rest));
        let after = SseState {
            buffer: state.buffer,
            lines: block_lines(rest),
            last_event_id: id_after(blocks[0], state.last_event_id),
        };
        assert forall|i: int| 0 <= i < rest.len() implies is_block(#[trigger] rest[i]) by {
            assert(rest[i] == blocks[i + 1]);
        }
        law_blocks_become_events(after, rest);
        assert(events =~= seq![event_of(blocks[0])] + rest.map_values(
            |lines: Seq<Seq<char>>| event_of(lines),
        ));
    }
}

/// Events that a server writes as UTF-8 lines, a blank line behind each, are the
/// events that a new stream emits, however the bytes are split into frames.
pub proof fn law_events_read_back(blocks: Seq<Seq<Seq<char>>>, frames: Seq<Seq<u8>>)
    requires
        forall|i: int| 0 <= i < blocks.len() ==> is_block(#[trigger] blocks[i]),
        all_bytes(frames) == sent_lines(block_lines(blocks)),
    ensures
        emitted(initial_state(), frames) == blocks.map_values(
            |lines: Seq<Seq<char>>| event_of(lines),
        ),
{
    law_events_independent_of_frames(initial_state(), frames);
    lemma_block_lines_clean(blocks);
    law_lines_read_back(block_lines(blocks));
    law_blocks_become_events(after_frame(initial_state(), all_bytes(frames)), blocks);
}

/// The lines of events hold no newline.
proof fn lemma_block_lines_clean(blocks: Seq<Seq<Seq<char>>>)
    requires
        forall|i: int| 0 <= i < blocks.len() ==> is_block(#[trigger] blocks[i]),
    ensures
        forall|i: int|
            0 <= i < block_lines(blocks).len() ==> !(#[trigger] block_lines(blocks)[i]).contains(
                '\n',
            ),
    decreases blocks.len(),
{
    if blocks.len() > 0 {
        let rest = blocks.skip(1);
        assert(is_block(blocks[0]));
        assert forall|i: int| 0 <= i < rest.len() implies is_block(#[trigger] rest[i]) by {
            assert(rest[i] == blocks[i + 1]);
        }
        lemma_block_lines_clean(rest);
        let head = blocks[0].push(blank());
        let lines = block_lines(blocks);
        assert forall|i: int| 0 <= i < lines.len() implies !(#[trigger] lines[i]).contains('\n') by {
            if i < blocks[0].len() {
                assert(lines[i] == blocks[0][i]);
            } else if i == blocks[0].len() {
                assert(lines[i] == blank());
            } else {
                assert(lines[i] == block_lines(rest)[i - head.len()]);
            }
        }
    }
}

// ---------------------------------------------------------------------------
// Lines
// ---------------------------------------------------------------------------

/// Some lines in a row, each with a newline behind it.
pub open spec fn with_newlines(lines: Seq<Seq<u8>>) -> Seq<u8>
    decreases lines.len(),
{
    if lines.len() == 0 {
        Seq::empty()
    } else {
        with_newlines(lines.drop_last()) + lines.last().push(10u8)
    }
}

/// Cutting bytes into lines loses nothing: the complete lines, each with its
/// newline, followed by the unfinished one are the bytes again, and no line holds a
/// newline.
pub proof fn law_lines_reassemble(bytes: Seq<u8>)
    ensures
        with_newlines(complete_lines(bytes)) + unfinished_line(bytes) == bytes,
        !unfinished_line(bytes).contains(10u8),
        forall|i: int|
            0 <= i < complete_lines(bytes).len() ==> !(#[trigger] complete_lines(
                bytes,
            )[i]).contains(10u8),
    decreases bytes.len(),
{
    if bytes.len() > 0 {
        let init = bytes.drop_last();
        law_lines_reassemble(init);
        let rest = unfinished_line(init);
        let lines = complete_lines(init);
        assert(init.push(bytes.last()) =~= bytes);
        if bytes.last() == 10u8 {
            assert(lines.push(rest).drop_last() =~= lines);
            assert(with_newlines(lines.push(rest)) + Seq::<u8>::empty() =~= (with_newlines(lines)
                + rest).push(10u8));
        } else {
            assert(with_newlines(lines) + rest.push(bytes.last()) =~= (with_newlines(lines)
                + rest).push(bytes.last()));
            assert forall|i: int| 0 <= i < rest.push(bytes.last()).len() implies #[trigger] rest.push(
                bytes.last(),
            )[i] != 10u8 by {
                if i < rest.len() {
                    assert(rest.contains(rest[i]));
                }
            }
        }
    } else {
        assert(with_newlines(complete_lines(bytes)) + unfinished_line(bytes) =~= bytes);
    }
}

/// A frame adds its lines behind those that wait, in order, and changes nothing
/// else: what waits stays, and so does the remembered id.
pub proof fn law_frame_adds_lines(state: SseState, frame: Seq<u8>)
    ensures
        ({
            let after = after_frame(state, frame);
            let cut = complete_lines(state.buffer + frame);
            &&& with_newlines(cut) + after.buffer == state.buffer + frame
            &&& after.lines.len() == state.lines.len() + cut.len()
            &&& forall|i: int|
                0 <= i < state.lines.len() ==> #[trigger] after.lines[i] == state.lines[i]
            &&& forall|i: int|
                0 <= i < cut.len() ==> after.lines[state.lines.len() + i] == lossy_text(
                    #[trigger] cut[i],
                )
            &&& after.last_event_id == state.last_event_id
        }),
{
    law_lines_reassemble(state.buffer + frame);
}

/// The text of bytes that are UTF-8 is what they encode, and the text of others is
/// what they are repaired to.
pub proof fn law_line_is_its_text(text: Seq<char>, bytes: Seq<u8>)
    ensures
        lossy_text(encode_utf8(text)) == text,
        valid_utf8(bytes) ==> encode_utf8(lossy_text(bytes)) == bytes,
        !valid_utf8(bytes) ==> lossy_text(bytes) == repaired_text(bytes),
{
    if valid_utf8(bytes) {
        vstd::utf8::decode_utf8_encode_utf8(bytes);
    }
    vstd::utf8::encode_utf8_valid_utf8(text);
    vstd::utf8::encode_utf8_decode_utf8(text);
}

// ---------------------------------------------------------------------------
// Fields
// ---------------------------------------------------------------------------

/// A field ends its name at the first colon. Behind that, one space is not part of
/// the value, and everything else is, colons and further spaces among it.
pub proof fn law_field_ends_at_first_colon(name: Seq<char>, rest: Seq<char>)
    requires
        !name.contains(':'),
    ensures
        field_name(name.push(':') + rest) == name,
        rest.len() > 0 && rest[0] == ' ' ==> field_value(name.push(':') + rest) == rest.skip(1),
        rest.len() == 0 || rest[0] != ' ' ==> field_value(name.push(':') + rest) == rest,
{
    let line = name.push(':') + rest;
    line.index_of_first_ensures(':');
    assert(line[name.len() as int] == ':');
    assert(line.contains(':'));
    assert forall|i: int| 0 <= i < name.len() implies #[trigger] line[i] != ':' by {
        assert(line[i] == name[i]);
        assert(name.contains(name[i]));
    }
    assert(line.index_of_first(':') == Some(name.len() as int));
    assert(line.take(name.len() as int) =~= name);
    assert(line.skip(name.len() as int + 1) =~= rest);
}

/// A line without a colon is a field name with an empty value.
pub proof fn law_line_without_colon_is_a_name(line: Seq<char>)
    requires
        !line.contains(':'),
    ensures
        field_name(line) == line,
        field_value(line).len() == 0,
{
    line.index_of_first_ensures(':');
}

/// The pieces of a text between its newlines.
pub open spec fn pieces(text: Seq<char>) -> Seq<Seq<char>>
    decreases text.len(),
{
    if text.len() == 0 {
        seq![Seq::empty()]
    } else {
        let before = pieces(text.drop_last());
        if text.last() == '\n' {
            before.push(Seq::empty())
        } else {
            before.drop_last().push(before.last().push(text.last()))
        }
    }
}

/// How many characters some texts have together.
pub open spec fn total_length(texts: Seq<Seq<char>>) -> nat
    decreases texts.len(),
{
    if texts.len() == 0 {
        0
    } else {
        total_length(texts.drop_last()) + texts.last().len()
    }
}

/// The values of the `data` lines among some lines, in order.
pub open spec fn data_values(lines: Seq<Seq<char>>) -> Seq<Seq<char>> {
    lines.filter(|line: Seq<char>| field_name(line) == "data"@).map_values(
        |line: Seq<char>| field_value(line),
    )
}

/// There is always a piece.
proof fn lemma_some_piece(text: Seq<char>)
    ensures
        pieces(text).len() > 0,
    decreases text.len(),
{
    if text.len() > 0 {
        lemma_some_piece(text.drop_last());
    }
}

/// Adding characters other than newlines adds to the last piece.
proof fn lemma_pieces_extended(text: Seq<char>, more: Seq<char>)
    requires
        !more.contains('\n'),
    ensures
        pieces(text + more) == pieces(text).drop_last().push(pieces(text).last() + more),
    decreases more.len(),
{
    lemma_some_piece(text);
    if more.len() == 0 {
        assert(text + more =~= text);
        assert(pieces(text).last() + more =~= pieces(text).last());
        assert(pieces(text).drop_last().push(pieces(text).last()) =~= pieces(text));
    } else {
        let init = more.drop_last();
        assert forall|i: int| 0 <= i < init.len() implies #[trigger] init[i] != '\n' by {
            assert(more.contains(more[i]));
        }
        lemma_pieces_extended(text, init);
        assert((text + more).drop_last() =~= text + init);
        assert(more.contains(more.last()));
        let before = pieces(text + init);
        assert(before.drop_last() =~= pieces(text).drop_last());
        assert((pieces(text).last() + init).push(more.last()) =~= pieces(text).last() + more);
    }
}

/// Joined values split into themselves.
proof fn lemma_joined_pieces(values: Seq<Seq<char>>)
    requires
        values.len() > 0,
        forall|i: int| 0 <= i < values.len() ==> !(#[trigger] values[i]).contains('\n'),
    ensures
        pieces(joined_lines(values)) == values,
        joined_lines(values).len() == total_length(values) + values.len() - 1,
    decreases values.len(),
{
    let last = values.last();
    assert(last == values[values.len() - 1]);
    let init = values.drop_last();
    assert(init.push(last) =~= values);
    if values.len() == 1 {
        let empty = Seq::<char>::empty();
        lemma_pieces_extended(empty, last);
        assert(empty + last =~= last);
        assert(pieces(last) =~= values);
        assert(total_length(init) == 0);
    } else {
        assert forall|i: int| 0 <= i < init.len() implies !(#[trigger] init[i]).contains('\n') by {
            assert(init[i] == values[i]);
        }
        lemma_joined_pieces(init);
        let front = joined_lines(init).push('\n');
        assert(front.drop_last() =~= joined_lines(init));
        lemma_pieces_extended(front, last);
        assert(pieces(front) =~= init.push(Seq::empty()));
        assert(pieces(front).drop_last() =~= init);
        assert(Seq::<char>::empty() + last =~= last);
    }
}

/// The values that are collected are those of the `data` lines.
proof fn lemma_data_values(lines: Seq<Seq<char>>)
    ensures
        all_values(lines, "data"@) == data_values(lines),
    decreases lines.len(),
{
    reveal(Seq::filter);
    if lines.len() == 0 {
        assert(all_values(lines, "data"@) =~= data_values(lines));
    } else {
        let is_data = |line: Seq<char>| field_name(line) == "data"@;
        let value = |line: Seq<char>| field_value(line);
        let init = lines.drop_last();
        lemma_data_values(init);
        if is_data(lines.last()) {
            assert(init.filter(is_data).push(lines.last()).map_values(value) =~= init.filter(
                is_data,
            ).map_values(value).push(field_value(lines.last())));
        }
    }
}

/// The payload of an event keeps every `data` line: splitting it at its newlines
/// gives back exactly the values of those lines, in order and with empty ones among
/// them, where there is one. So its length is that of the values and of a newline
/// between each two. An event without `data` lines has no payload.
pub proof fn law_payload_splits_into_data(lines: Seq<Seq<char>>)
    requires
        forall|i: int|
            0 <= i < lines.len() && field_name(#[trigger] lines[i]) == "data"@ ==> !field_value(
                lines[i],
            ).contains('\n'),
    ensures
        ({
            let values = data_values(lines);
            let data = event_of(lines).data;
            &&& values.len() == 0 ==> data.len() == 0
            &&& values.len() > 0 ==> pieces(data) == values
            &&& values.len() > 0 ==> data.len() == total_length(values) + values.len() - 1
        }),
{
    lemma_data_values(lines);
    let is_data = |line: Seq<char>| field_name(line) == "data"@;
    let values = data_values(lines);
    if values.len() > 0 {
        assert forall|i: int| 0 <= i < values.len() implies !(#[trigger] values[i]).contains(
            '\n',
        ) by {
            let kept = lines.filter(is_data);
            lemma_filtered_element(lines, is_data, i);
            let at = choose|j: int|
                0 <= j < lines.len() && is_data(lines[j]) && #[trigger] lines[j] == kept[i];
            assert(!field_value(lines[at]).contains('\n'));
        }
        lemma_joined_pieces(values);
    }
}

/// What a filter keeps was there, and is such as it keeps.
proof fn lemma_filtered_element(
    lines: Seq<Seq<char>>,
    keep: spec_fn(Seq<char>) -> bool,
    i: int,
)
    requires
        0 <= i < lines.filter(keep).len(),
    ensures
        exists|j: int|
            0 <= j < lines.len() && keep(lines[j]) && #[trigger] lines[j] == lines.filter(keep)[i],
    decreases lines.len(),
{
    reveal(Seq::filter);
    let init = lines.drop_last();
    if i < init.filter(keep).len() {
        lemma_filtered_element(init, keep, i);
        let j = choose|j: int|
            0 <= j < init.len() && keep(init[j]) && #[trigger] init[j] == init.filter(keep)[i];
        assert(lines[j] == lines.filter(keep)[i]);
    } else {
        assert(lines[lines.len() - 1] == lines.filter(keep)[i]);
    }
}

/// One more `data` line adds its value to the payload, behind a newline unless it
/// is the first, whatever the value is and whatever other lines there are.
pub proof fn law_data_line_appends(lines: Seq<Seq<char>>, line: Seq<char>)
    requires
        field_name(line) == "data"@,
    ensures
        (forall|i: int| 0 <= i < lines.len() ==> field_name(#[trigger] lines[i]) != "data"@)
            ==> event_of(lines.push(line)).data == field_value(line),
        (exists|i: int| 0 <= i < lines.len() && field_name(#[trigger] lines[i]) == "data"@)
            ==> event_of(lines.push(line)).data == event_of(lines).data.push('\n') + field_value(
            line,
        ),
{
    let all = lines.push(line);
    assert(all.drop_last() =~= lines);
    lemma_has_value_iff(lines, "data"@);
    let values = all_values(lines, "data"@);
    assert(all_values(all, "data"@) == values.push(field_value(line)));
    assert(values.push(field_value(line)).drop_last() =~= values);
}

/// There are values of a field exactly where a line names it.
proof fn lemma_has_value_iff(lines: Seq<Seq<char>>, name: Seq<char>)
    ensures
        all_values(lines, name).len() > 0 <==> (exists|i: int|
            0 <= i < lines.len() && field_name(#[trigger] lines[i]) == name),
    decreases lines.len(),
{
    if lines.len() > 0 {
        let init = lines.drop_last();
        lemma_has_value_iff(init, name);
        if field_name(lines.last()) == name {
            assert(field_name(lines[lines.len() - 1]) == name);
        } else {
            if exists|i: int| 0 <= i < lines.len() && field_name(#[trigger] lines[i]) == name {
                let i = choose|i: int|
                    0 <= i < lines.len() && field_name(#[trigger] lines[i]) == name;
                assert(field_name(init[i]) == name);
            }
            if exists|i: int| 0 <= i < init.len() && field_name(#[trigger] init[i]) == name {
                let i = choose|i: int| 0 <= i < init.len() && field_name(#[trigger] init[i]) == name;
                assert(field_name(lines[i]) == name);
            }
        }
    }
}

/// The type of an event is the value of its last `event` line.
pub proof fn law_last_event_line_is_the_type(lines: Seq<Seq<char>>, at: int)
    requires
        0 <= at < lines.len(),
        field_name(lines[at]) == "event"@,
        forall|i: int| at < i < lines.len() ==> field_name(#[trigger] lines[i]) != "event"@,
    ensures
        event_of(lines).event == Some(field_value(lines[at])),
    decreases lines.len(),
{
    if at < lines.len() - 1 {
        let init = lines.drop_last();
        assert(init[at] == lines[at]);
        assert(field_name(lines[lines.len() - 1]) != "event"@);
        assert forall|i: int| at < i < init.len() implies field_name(#[trigger] init[i])
            != "event"@ by {
            assert(init[i] == lines[i]);
        }
        law_last_event_line_is_the_type(init, at);
    }
}

/// An event without an `event` line has no type.
pub proof fn law_no_event_line_no_type(lines: Seq<Seq<char>>)
    requires
        forall|i: int| 0 <= i < lines.len() ==> field_name(#[trigger] lines[i]) != "event"@,
    ensures
        event_of(lines).event is None,
    decreases lines.len(),
{
    if lines.len() > 0 {
        let init = lines.drop_last();
        assert(field_name(lines[lines.len() - 1]) != "event"@);
        assert forall|i: int| 0 <= i < init.len() implies field_name(#[trigger] init[i])
            != "event"@ by {
            assert(init[i] == lines[i]);
        }
        law_no_event_line_no_type(init);
    }
}

/// The id of an event is the value of its last `id` line, null characters aside,
/// and it is then the id that is remembered.
pub proof fn law_last_id_line_is_the_id(
    lines: Seq<Seq<char>>,
    at: int,
    before: Option<Seq<char>>,
)
    requires
        0 <= at < lines.len(),
        field_name(lines[at]) == "id"@,
        !field_value(lines[at]).contains('\0'),
        forall|i: int|
            at < i < lines.len() ==> field_name(#[trigger] lines[i]) != "id"@ || field_value(
                lines[i],
            ).contains('\0'),
    ensures
        event_of(lines).id == Some(field_value(lines[at])),
        id_after(lines, before) == Some(field_value(lines[at])),
    decreases lines.len(),
{
    if at < lines.len() - 1 {
        let init = lines.drop_last();
        assert(init[at] == lines[at]);
        let last = lines[lines.len() - 1];
        assert(field_name(last) != "id"@ || field_value(last).contains('\0'));
        assert forall|i: int| at < i < init.len() implies field_name(#[trigger] init[i]) != "id"@
            || field_value(init[i]).contains('\0') by {
            assert(init[i] == lines[i]);
        }
        law_last_id_line_is_the_id(init, at, before);
    }
}

/// An event without such a line has no id, and what was remembered stays.
pub proof fn law_no_id_line_no_id(lines: Seq<Seq<char>>, before: Option<Seq<char>>)
    requires
        forall|i: int|
            0 <= i < lines.len() ==> field_name(#[trigger] lines[i]) != "id"@ || field_value(
                lines[i],
            ).contains('\0'),
    ensures
        event_of(lines).id is None,
        id_after(lines, before) == before,
    decreases lines.len(),
{
    if lines.len() > 0 {
        let init = lines.drop_last();
        let last = lines[lines.len() - 1];
        assert(field_name(last) != "id"@ || field_value(last).contains('\0'));
        assert forall|i: int| 0 <= i < init.len() implies field_name(#[trigger] init[i]) != "id"@
            || field_value(init[i]).contains('\0') by {
            assert(init[i] == lines[i]);
        }
        law_no_id_line_no_id(init, before);
    }
}

// ---------------------------------------------------------------------------
// Polling
// ---------------------------------------------------------------------------

/// The lines that wait when a call looks for an event.
pub open spec fn waiting_lines(before: SseState, input: SseInput) -> Seq<Seq<char>> {
    match input {
        SseInput::Data(frame) => after_frame(before, frame@).lines,
        _ => before.lines,
    }
}

/// Where a blank line waits, asking for an event, reporting data or reporting the
/// end gives the event of the lines in front of it. Those lines and the blank one
/// are used up, and no others.
pub proof fn law_poll_gives_first_event(
    before: SseState,
    input: SseInput,
    after: SseState,
    action: SseAction,
    end: int,
)
    requires
        poll_step(before, input, after, action),
        input is Start || input is Data || input is BodyEnd,
        0 <= end < waiting_lines(before, input).len(),
        waiting_lines(before, input)[end].len() == 0,
        forall|i: int|
            0 <= i < end ==> (#[trigger] waiting_lines(before, input)[i]).len() > 0,
    ensures
        ({
            let lines = waiting_lines(before, input);
            &&& action matches SseAction::Event(event)
            &&& event@ == event_of(lines.take(end))
            &&& after.lines == lines.skip(end + 1)
            &&& after.buffer == (match input {
                SseInput::Data(frame) => after_frame(before, frame@).buffer,
                _ => before.buffer,
            })
            &&& after.last_event_id == id_after(lines.take(end), before.last_event_id)
        }),
{
    let lines = waiting_lines(before, input);
    let state = match input {
        SseInput::Data(frame) => after_frame(before, frame@),
        _ => before,
    };
    let block = lines.take(end);
    let rest = lines.skip(end + 1);
    assert(lines[end] =~= blank());
    assert(lines =~= block.push(blank()) + rest);
    assert forall|i: int| 0 <= i < block.len() implies #[trigger] block[i] != blank() by {
        assert(block[i] == lines[i]);
    }
    law_blank_line_ends_event(state, block, rest);
}

/// Where no blank line waits there is no event to give: the body is polled, the
/// consumer is told to wait and to ask again, or the stream ends. No line is used
/// up.
pub proof fn law_poll_without_event(
    before: SseState,
    input: SseInput,
    after: SseState,
    action: SseAction,
)
    requires
        poll_step(before, input, after, action),
        forall|i: int|
            0 <= i < waiting_lines(before, input).len() ==> (#[trigger] waiting_lines(
                before,
                input,
            )[i]).len() > 0,
    ensures
        input is Start ==> action is PollBody && after == before,
        input is BodyEnd ==> action is End && after == before,
        input matches SseInput::Data(frame) ==> action == (SseAction::Pending { wake: true })
            && after == after_frame(before, frame@),
{
    let lines = waiting_lines(before, input);
    lines.index_of_first_ensures(blank());
    if lines.contains(blank()) {
        let i = choose|i: int| 0 <= i < lines.len() && lines[i] == blank();
        assert(lines[i].len() > 0);
    }
}

/// A failure of the body is handed to the consumer as it is. A body without a frame
/// makes the consumer wait, and a frame that is not data makes it ask again. None of
/// these changes the stream.
pub proof fn law_poll_passes_on(
    before: SseState,
    input: SseInput,
    after: SseState,
    action: SseAction,
)
    requires
        poll_step(before, input, after, action),
    ensures
        input matches SseInput::Failed(error) ==> action == SseAction::Failed(error) && after
            == before,
        input is BodyPending ==> action == (SseAction::Pending { wake: false }) && after == before,
        input is OtherFrame ==> action == (SseAction::Pending { wake: true }) && after == before,
{
}

/// A new stream has nothing: no bytes, no lines and no id.
pub proof fn law_new_stream_is_empty()
    ensures
        initial_state().buffer.len() == 0,
        initial_state().lines.len() == 0,
        initial_state().last_event_id is None,
{
}

} // verus!
