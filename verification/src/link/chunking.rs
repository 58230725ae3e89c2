//! Cutting a stream into calls.
//!
//! A decoder that is fed one byte per call meets every byte in the state
//! that the bytes before it have led to. A call on more bytes does the same
//! in longer moves. This module proves that the two come to the same, so
//! that the cuts between calls make no difference.

use vstd::prelude::*;
use crate::link::frame::{body_size, HEADER_SIZE, SYNC1};
use crate::link::header::Header;
use crate::link::model::{
    body_complete, emitted, first_sync, header_complete, lemma_first_sync, lemma_first_sync_is,
    lemma_step_wf, run, step, FrameEvent, Outcome, ParserModel, Step,
};

verus! {

/// One call of a decoder in state `s` on the single byte `byte`.
pub open spec fn feed(s: ParserModel, byte: u8) -> Step {
    step(s, seq![byte])
}

/// As many calls of a decoder as `input` has bytes, each on one byte.
pub open spec fn feed_all(s: ParserModel, input: Seq<u8>) -> Outcome
    decreases input.len(),
{
    if input.len() == 0 {
        Outcome { state: s, events: Seq::empty() }
    } else {
        let first = feed(s, input[0]);
        feed_all(first.next, input.drop_first()).after(first.event)
    }
}

/// Feeding two stretches of input byte by byte, one after the other, is
/// feeding their concatenation byte by byte.
pub proof fn lemma_feed_all_concat(s: ParserModel, a: Seq<u8>, b: Seq<u8>)
    ensures
        feed_all(s, a + b) == feed_all(feed_all(s, a).state, b).after_all(feed_all(s, a).events),
    decreases a.len(),
{
    if a.len() == 0 {
        assert(a + b == b);
        assert(feed_all(s, b).after_all(Seq::empty()) == feed_all(s, b));
    } else {
        let first = feed(s, a[0]);
        assert((a + b).drop_first() == a.drop_first() + b);
        lemma_feed_all_concat(first.next, a.drop_first(), b);
        let rest = feed_all(first.next, a.drop_first());
        let tail = feed_all(rest.state, b);
        assert(emitted(first.event) + (rest.events + tail.events) == (emitted(first.event)
            + rest.events) + tail.events);
    }
}

/// Feeding byte by byte from a state that a decoder can be in leaves it in
/// such a state.
pub proof fn lemma_feed_all_wf(s: ParserModel, input: Seq<u8>)
    requires
        s.wf(),
    ensures
        feed_all(s, input).state.wf(),
    decreases input.len(),
{
    if input.len() > 0 {
        lemma_step_wf(s, seq![input[0]]);
        lemma_feed_all_wf(feed(s, input[0]).next, input.drop_first());
    }
}

/// Feeding one byte is one call on that byte.
pub proof fn lemma_feed_one(s: ParserModel, byte: u8)
    ensures
        feed_all(s, seq![byte]) == (Outcome {
            state: feed(s, byte).next,
            events: emitted(feed(s, byte).event),
        }),
{
    let one = seq![byte];
    let first = feed(s, byte);
    assert(one.drop_first().len() == 0);
    assert(feed_all(first.next, one.drop_first()) == Outcome {
        state: first.next,
        events: Seq::empty(),
    });
    assert(emitted(first.event) + Seq::<FrameEvent>::empty() == emitted(first.event));
}

/// One call of a decoder at the hunt on one byte: the first sync byte
/// makes it await the second, any other byte leaves it at the hunt.
pub proof fn lemma_feed_at_the_hunt(byte: u8)
    ensures
        feed(ParserModel::AwaitingSync1, byte) == (Step {
            next: if byte == SYNC1 {
                ParserModel::AwaitingSync2
            } else {
                ParserModel::AwaitingSync1
            },
            consumed: 1,
            event: None,
        }),
{
    reveal(step);
    let one = seq![byte];
    lemma_first_sync_is(one, if byte == SYNC1 { 0 } else { 1 });
}

/// Fed byte by byte, a decoder that collects a header takes each byte into
/// the header and acts on the tenth.
pub proof fn lemma_feed_header(got: Seq<u8>, chunk: Seq<u8>)
    requires
        ParserModel::AccumulatingHeader(got).wf(),
        got.len() + chunk.len() <= HEADER_SIZE,
    ensures
        feed_all(ParserModel::AccumulatingHeader(got), chunk) == (if got.len() + chunk.len()
            < HEADER_SIZE {
            Outcome { state: ParserModel::AccumulatingHeader(got + chunk), events: Seq::empty() }
        } else {
            Outcome {
                state: header_complete(got + chunk).0,
                events: emitted(header_complete(got + chunk).1),
            }
        }),
    decreases chunk.len(),
{
    reveal(step);
    let s = ParserModel::AccumulatingHeader(got);
    if chunk.len() == 0 {
        assert(got + chunk == got);
    } else {
        let one = seq![chunk[0]];
        let first = feed(s, chunk[0]);
        assert(one.take(1) == one);
        assert((got + one) + chunk.drop_first() == got + chunk);
        if got.len() + 1 < HEADER_SIZE {
            assert(first.next == ParserModel::AccumulatingHeader(got + one));
            lemma_feed_header(got + one, chunk.drop_first());
            assert(feed_all(s, chunk) == feed_all(first.next, chunk.drop_first()).after(
                first.event,
            ));
        } else {
            assert(chunk.drop_first().len() == 0);
            assert(got + one == got + chunk);
            assert(emitted(first.event) + Seq::<FrameEvent>::empty() == emitted(first.event));
        }
    }
}

/// Fed byte by byte, a decoder that collects a body takes each byte into the
/// body and acts on the last.
pub proof fn lemma_feed_body(header: Header, user_len: u8, got: Seq<u8>, chunk: Seq<u8>)
    requires
        ParserModel::AccumulatingBody(header, user_len, got).wf(),
        got.len() + chunk.len() <= body_size(user_len as nat),
    ensures
        feed_all(ParserModel::AccumulatingBody(header, user_len, got), chunk) == (if got.len()
            + chunk.len() < body_size(user_len as nat) {
            Outcome {
                state: ParserModel::AccumulatingBody(header, user_len, got + chunk),
                events: Seq::empty(),
            }
        } else {
            Outcome {
                state: ParserModel::AwaitingSync1,
                events: seq![body_complete(header, got + chunk)],
            }
        }),
    decreases chunk.len(),
{
    reveal(step);
    let s = ParserModel::AccumulatingBody(header, user_len, got);
    if chunk.len() == 0 {
        assert(got + chunk == got);
    } else {
        let one = seq![chunk[0]];
        let first = feed(s, chunk[0]);
        assert(one.take(1) == one);
        assert((got + one) + chunk.drop_first() == got + chunk);
        if got.len() + 1 < body_size(user_len as nat) {
            assert(first.next == ParserModel::AccumulatingBody(header, user_len, got + one));
            lemma_feed_body(header, user_len, got + one, chunk.drop_first());
            assert(feed_all(s, chunk) == feed_all(first.next, chunk.drop_first()).after(
                first.event,
            ));
        } else {
            assert(chunk.drop_first().len() == 0);
            assert(got + one == got + chunk);
            assert(emitted(first.event) + Seq::<FrameEvent>::empty() == emitted(first.event));
        }
    }
}

/// Fed byte by byte, a decoder at the hunt stays at the hunt on input
/// without the first sync byte.
pub proof fn lemma_feed_noise(input: Seq<u8>)
    requires
        !input.contains(SYNC1),
    ensures
        feed_all(ParserModel::AwaitingSync1, input) == (Outcome {
            state: ParserModel::AwaitingSync1,
            events: Seq::empty(),
        }),
    decreases input.len(),
{
    if input.len() > 0 {
        assert(input.contains(input[0]));
        lemma_feed_at_the_hunt(input[0]);
        assert forall|i: int| 0 <= i < input.drop_first().len() implies input.drop_first()[i]
            != SYNC1 by {
            assert(input.contains(input[i + 1]));
        }
        lemma_feed_noise(input.drop_first());
        assert(Seq::<FrameEvent>::empty() + Seq::<FrameEvent>::empty() == Seq::<
            FrameEvent,
        >::empty());
    }
}

/// One move is feeding the bytes that the move uses up one at a time.
pub proof fn lemma_step_is_feed_all(s: ParserModel, input: Seq<u8>)
    requires
        s.wf(),
    ensures
        feed_all(s, input.take(step(s, input).consumed as int)) == (Outcome {
            state: step(s, input).next,
            events: emitted(step(s, input).event),
        }),
{
    reveal(step);
    let st = step(s, input);
    let used = input.take(st.consumed as int);
    let goal = Outcome { state: st.next, events: emitted(st.event) };
    if input.len() == 0 {
        assert(used.len() == 0);
    } else {
        match s {
            ParserModel::AwaitingSync1 => {
                lemma_first_sync(input);
                let k = first_sync(input) as int;
                let noise = input.take(k);
                assert forall|i: int| 0 <= i < noise.len() implies noise[i] != SYNC1 by {}
                lemma_feed_noise(noise);
                if k < input.len() {
                    let sync = seq![SYNC1];
                    assert(used == noise + sync);
                    lemma_feed_one(s, SYNC1);
                    lemma_feed_at_the_hunt(SYNC1);
                    lemma_feed_all_concat(s, noise, sync);
                    assert(Seq::<FrameEvent>::empty() + Seq::<FrameEvent>::empty() == Seq::<
                        FrameEvent,
                    >::empty());
                    assert(feed_all(s, used) == goal);
                } else {
                    assert(used == input);
                    assert(noise == input);
                    assert(feed_all(s, used) == goal);
                }
            },
            ParserModel::AwaitingSync2 => {
                assert(used == seq![input[0]]);
                lemma_feed_one(s, input[0]);
                assert(feed(s, input[0]) == st);
                assert(feed_all(s, used) == goal);
            },
            ParserModel::AccumulatingHeader(got) => {
                lemma_feed_header(got, used);
                assert(feed_all(s, used) == goal);
            },
            ParserModel::AccumulatingBody(header, user_len, got) => {
                lemma_feed_body(header, user_len, got, used);
                assert(feed_all(s, used) == goal);
            },
        }
    }
}

/// Cuts inside a call do not matter: a call tells the handler what feeding
/// its input byte by byte tells it, and leaves the decoder in the same
/// state.
pub proof fn lemma_run_is_feed_all(s: ParserModel, input: Seq<u8>)
    requires
        s.wf(),
    ensures
        run(s, input) == feed_all(s, input),
    decreases input.len(),
{
    if input.len() > 0 {
        let st = step(s, input);
        let used = input.take(st.consumed as int);
        let rest = input.skip(st.consumed as int);
        lemma_step_wf(s, input);
        assert(used + rest == input);
        lemma_step_is_feed_all(s, input);
        lemma_run_is_feed_all(st.next, rest);
        lemma_feed_all_concat(s, used, rest);
    } else {
        lemma_step_wf(s, input);
    }
}

/// A stream cut into the pieces that it comes in.
pub open spec fn concat(chunks: Seq<Seq<u8>>) -> Seq<u8>
    decreases chunks.len(),
{
    if chunks.len() == 0 {
        Seq::empty()
    } else {
        chunks[0] + concat(chunks.drop_first())
    }
}

/// One call for each piece of a stream, in order, from state `s`.
pub open spec fn run_chunks(s: ParserModel, chunks: Seq<Seq<u8>>) -> Outcome
    decreases chunks.len(),
{
    if chunks.len() == 0 {
        Outcome { state: s, events: Seq::empty() }
    } else {
        let first = run(s, chunks[0]);
        run_chunks(first.state, chunks.drop_first()).after_all(first.events)
    }
}

/// A stream cut into pieces of one byte each.
pub open spec fn byte_by_byte(input: Seq<u8>) -> Seq<Seq<u8>> {
    Seq::new(input.len(), |i: int| seq![input[i]])
}

/// Two calls on the two parts of a stream do what one call on the whole
/// does.
pub proof fn lemma_two_calls_are_one(s: ParserModel, a: Seq<u8>, b: Seq<u8>)
    requires
        s.wf(),
    ensures
        run(s, a + b) == run(run(s, a).state, b).after_all(run(s, a).events),
{
    lemma_run_is_feed_all(s, a + b);
    lemma_run_is_feed_all(s, a);
    lemma_feed_all_wf(s, a);
    lemma_run_is_feed_all(feed_all(s, a).state, b);
    lemma_feed_all_concat(s, a, b);
}

/// One call for each piece of a stream does what feeding the stream byte
/// by byte does, however the stream is cut into pieces.
pub proof fn lemma_chunks_are_feed_all(s: ParserModel, chunks: Seq<Seq<u8>>)
    requires
        s.wf(),
    ensures
        run_chunks(s, chunks) == feed_all(s, concat(chunks)),
    decreases chunks.len(),
{
    if chunks.len() > 0 {
        let a = chunks[0];
        let b = concat(chunks.drop_first());
        lemma_run_is_feed_all(s, a);
        lemma_feed_all_wf(s, a);
        lemma_chunks_are_feed_all(feed_all(s, a).state, chunks.drop_first());
        lemma_feed_all_concat(s, a, b);
    }
}

/// A call on one byte is one move.
pub proof fn lemma_run_one_byte(s: ParserModel, byte: u8)
    requires
        s.wf(),
    ensures
        run(s, seq![byte]) == (Outcome {
            state: feed(s, byte).next,
            events: emitted(feed(s, byte).event),
        }),
{
    let one = seq![byte];
    let first = step(s, one);
    let nothing = one.skip(1);
    lemma_step_wf(s, one);
    lemma_step_wf(first.next, nothing);
    assert(first.consumed == 1);
    assert(run(first.next, nothing) == Outcome { state: first.next, events: Seq::empty() });
    assert(emitted(first.event) + Seq::<FrameEvent>::empty() == emitted(first.event));
    assert(run(s, one) == run(first.next, nothing).after(first.event));
}

/// Feeding a stream byte by byte is what one call for each of its bytes
/// does, whatever the stream.
pub proof fn lemma_feed_all_is_one_byte_calls(s: ParserModel, input: Seq<u8>)
    requires
        s.wf(),
    ensures
        concat(byte_by_byte(input)) == input,
        run_chunks(s, byte_by_byte(input)) == feed_all(s, input),
    decreases input.len(),
{
    let chunks = byte_by_byte(input);
    if input.len() > 0 {
        let later = input.drop_first();
        assert(chunks.drop_first() == byte_by_byte(later));
        assert(chunks[0] == seq![input[0]]);
        lemma_run_one_byte(s, input[0]);
        lemma_step_wf(s, seq![input[0]]);
        lemma_feed_all_is_one_byte_calls(feed(s, input[0]).next, later);
        assert(seq![input[0]] + later == input);
    } else {
        assert(concat(chunks) == input);
    }
}

/// Chunk-boundary independence: any two ways to cut a stream into calls
/// tell the handler the same things in the same order, and leave the
/// decoder in the same state, whatever the stream holds.
pub proof fn lemma_chunking_does_not_matter(
    s: ParserModel,
    chunks: Seq<Seq<u8>>,
    other_chunks: Seq<Seq<u8>>,
)
    requires
        s.wf(),
        concat(chunks) == concat(other_chunks),
    ensures
        run_chunks(s, chunks) == run_chunks(s, other_chunks),
{
    lemma_chunks_are_feed_all(s, chunks);
    lemma_chunks_are_feed_all(s, other_chunks);
}

/// One call on a whole stream tells the handler what one call for each
/// byte of the stream tells it, whatever the stream holds.
pub proof fn lemma_one_call_is_one_byte_calls(s: ParserModel, input: Seq<u8>)
    requires
        s.wf(),
    ensures
        run(s, input) == run_chunks(s, byte_by_byte(input)),
{
    lemma_run_is_feed_all(s, input);
    lemma_feed_all_is_one_byte_calls(s, input);
}

} // verus!
