//! The decoder as a state machine on byte sequences.
//!
//! `step` is one move of the decoder on the input that is left, `run` is the
//! whole of a call: moves repeated until the input is used up.

use vstd::prelude::*;
use crate::link::frame::{
    body_crc_ok, body_size, header_crc_ok, header_fields, user_data, HEADER_SIZE, MAX_USER_DATA,
    MIN_LENGTH, SYNC1, SYNC2,
};
use crate::link::header::Header;
use crate::link::parser::ParseError;

verus! {

/// What a decoder tells its handler: a frame, with its header and user data,
/// or the reason why a frame was thrown away.
#[verifier::ext_equal]
pub enum FrameEvent {
    Frame(Header, Seq<u8>),
    Error(ParseError),
}

/// The state of a decoder between two moves.
#[verifier::ext_equal]
pub enum ParserModel {
    /// Hunting for the first sync byte.
    AwaitingSync1,
    /// The first sync byte was seen; the next byte decides.
    AwaitingSync2,
    /// Collecting a header. The bytes are those received so far, the two
    /// sync bytes included.
    AccumulatingHeader(Seq<u8>),
    /// Collecting the body of the frame with the given header and length of
    /// user data. The bytes are those of the body received so far.
    AccumulatingBody(Header, u8, Seq<u8>),
}

impl ParserModel {
    /// True of the states that a decoder can be in.
    pub open spec fn wf(self) -> bool {
        match self {
            ParserModel::AwaitingSync1 => true,
            ParserModel::AwaitingSync2 => true,
            ParserModel::AccumulatingHeader(got) => {
                &&& 2 <= got.len() < HEADER_SIZE
                &&& got[0] == SYNC1
                &&& got[1] == SYNC2
            },
            ParserModel::AccumulatingBody(_, user_len, got) => {
                &&& 0 < user_len <= MAX_USER_DATA
                &&& got.len() < body_size(user_len as nat)
            },
        }
    }
}

/// One move of a decoder.
#[verifier::ext_equal]
pub struct Step {
    /// The state after the move.
    pub next: ParserModel,
    /// How many bytes of the input the move used up.
    pub consumed: nat,
    /// What the handler was told during the move, if anything.
    pub event: Option<FrameEvent>,
}

/// What a stretch of input comes to: the state it leaves the decoder in, and
/// what the handler was told on the way, in order.
#[verifier::ext_equal]
pub struct Outcome {
    pub state: ParserModel,
    pub events: Seq<FrameEvent>,
}

/// The events of one move, as a sequence of none or one.
pub open spec fn emitted(event: Option<FrameEvent>) -> Seq<FrameEvent> {
    match event {
        Some(e) => seq![e],
        None => Seq::empty(),
    }
}

impl Outcome {
    /// This outcome, reached after a move that told the handler `event`.
    pub open spec fn after(self, event: Option<FrameEvent>) -> Outcome {
        Outcome { state: self.state, events: emitted(event) + self.events }
    }

    /// This outcome, reached after `events` had been told already.
    pub open spec fn after_all(self, events: Seq<FrameEvent>) -> Outcome {
        Outcome { state: self.state, events: events + self.events }
    }
}

/// How many of `available` bytes a decoder takes when it waits for `wanted`.
pub open spec fn taken(available: nat, wanted: int) -> nat {
    if wanted <= 0 {
        0
    } else if available <= wanted {
        available
    } else {
        wanted as nat
    }
}

/// The move that ends a header: `header` holds its ten bytes.
///
/// A length byte under five is an error, whatever the checksum. Then the
/// checksum decides. A frame of length five is complete and is handed over
/// with no user data; a longer one goes on to collect its body.
pub open spec fn header_complete(header: Seq<u8>) -> (ParserModel, Option<FrameEvent>) {
    let length = header[2];
    if length < MIN_LENGTH {
        (ParserModel::AwaitingSync1, Some(FrameEvent::Error(ParseError::BadLength(length))))
    } else if !header_crc_ok(header) {
        (ParserModel::AwaitingSync1, Some(FrameEvent::Error(ParseError::BadHeaderCRC)))
    } else if length == MIN_LENGTH {
        (ParserModel::AwaitingSync1, Some(FrameEvent::Frame(header_fields(header), Seq::empty())))
    } else {
        (
            ParserModel::AccumulatingBody(
                header_fields(header),
                (length - MIN_LENGTH) as u8,
                Seq::empty(),
            ),
            None,
        )
    }
}

/// What the handler is told when a body is complete: the frame with its
/// user data if every block's checksum matches, and an error otherwise.
pub open spec fn body_complete(header: Header, body: Seq<u8>) -> FrameEvent {
    if body_crc_ok(body) {
        FrameEvent::Frame(header, user_data(body))
    } else {
        FrameEvent::Error(ParseError::BadBodyCRC)
    }
}

/// The place of the first sync byte in `input`: how many bytes stand before
/// it. Where `input` holds no first sync byte, this is the length of
/// `input`.
pub open spec fn first_sync(input: Seq<u8>) -> nat
    decreases input.len(),
{
    if input.len() == 0 || input[0] == SYNC1 {
        0
    } else {
        1 + first_sync(input.drop_first())
    }
}

/// The first sync byte stands at `first_sync` and nowhere before it, and
/// `first_sync` is the length of the input where the byte stands nowhere.
pub proof fn lemma_first_sync(input: Seq<u8>)
    ensures
        first_sync(input) <= input.len(),
        forall|j: int| 0 <= j < first_sync(input) ==> input[j] != SYNC1,
        first_sync(input) < input.len() ==> input[first_sync(input) as int] == SYNC1,
        first_sync(input) == input.len() <==> !input.contains(SYNC1),
    decreases input.len(),
{
    if input.len() > 0 && input[0] != SYNC1 {
        let later = input.drop_first();
        lemma_first_sync(later);
        assert forall|j: int| 0 <= j < first_sync(input) implies input[j] != SYNC1 by {
            if j > 0 {
                assert(input[j] == later[j - 1]);
            }
        }
        if first_sync(input) < input.len() {
            assert(input[first_sync(input) as int] == later[first_sync(later) as int]);
        }
        if later.contains(SYNC1) {
            let i = choose|i: int| 0 <= i < later.len() && later[i] == SYNC1;
            assert(input[i + 1] == SYNC1);
        }
        if input.contains(SYNC1) {
            let i = choose|i: int| 0 <= i < input.len() && input[i] == SYNC1;
            assert(later[i - 1] == SYNC1);
        }
    } else if input.len() > 0 {
        assert(input.contains(SYNC1));
    }
}

/// The place of the first sync byte is `k` where the byte stands at `k`, or
/// `k` is the length of the input, and the byte stands nowhere before `k`.
pub proof fn lemma_first_sync_is(input: Seq<u8>, k: int)
    requires
        0 <= k <= input.len(),
        forall|j: int| 0 <= j < k ==> input[j] != SYNC1,
        k < input.len() ==> input[k] == SYNC1,
    ensures
        first_sync(input) == k,
{
    lemma_first_sync(input);
    let found = first_sync(input) as int;
    if found < k {
        assert(input[found] == SYNC1);
    } else if found > k {
        assert(input[k] != SYNC1);
    }
}

/// One move of a decoder in state `s` on the input that is left.
///
/// - Hunting for the first sync byte, the decoder skips what stands before
///   it. If the byte is nowhere, all of the input is used up. If it is
///   somewhere, the bytes before it and the sync byte itself are used up,
///   and the decoder goes on to await the second sync byte in the byte
///   behind it.
/// - Awaiting the second sync byte, the decoder uses up one byte: the second
///   sync byte starts a header, any other byte sends the decoder back to
///   hunting.
/// - Collecting a header or a body, the decoder takes what it still needs,
///   or all the input if that is less, and acts when it has all it needs.
///
/// On empty input nothing happens.
#[verifier::opaque]
pub open spec fn step(s: ParserModel, input: Seq<u8>) -> Step {
    if input.len() == 0 {
        Step { next: s, consumed: 0, event: None }
    } else {
        match s {
            ParserModel::AwaitingSync1 => {
                if first_sync(input) < input.len() {
                    Step {
                        next: ParserModel::AwaitingSync2,
                        consumed: first_sync(input) + 1,
                        event: None,
                    }
                } else {
                    Step { next: ParserModel::AwaitingSync1, consumed: input.len(), event: None }
                }
            },
            ParserModel::AwaitingSync2 => {
                if input[0] == SYNC2 {
                    Step {
                        next: ParserModel::AccumulatingHeader(seq![SYNC1, SYNC2]),
                        consumed: 1,
                        event: None,
                    }
                } else {
                    Step { next: ParserModel::AwaitingSync1, consumed: 1, event: None }
                }
            },
            ParserModel::AccumulatingHeader(got) => {
                let n = taken(input.len(), HEADER_SIZE - got.len());
                let header = got + input.take(n as int);
                if header.len() < HEADER_SIZE {
                    Step { next: ParserModel::AccumulatingHeader(header), consumed: n, event: None }
                } else {
                    let (next, event) = header_complete(header);
                    Step { next, consumed: n, event }
                }
            },
            ParserModel::AccumulatingBody(header, user_len, got) => {
                let n = taken(input.len(), body_size(user_len as nat) - got.len());
                let body = got + input.take(n as int);
                if body.len() < body_size(user_len as nat) {
                    Step {
                        next: ParserModel::AccumulatingBody(header, user_len, body),
                        consumed: n,
                        event: None,
                    }
                } else {
                    Step {
                        next: ParserModel::AwaitingSync1,
                        consumed: n,
                        event: Some(body_complete(header, body)),
                    }
                }
            },
        }
    }
}

/// A whole call of a decoder in state `s` on `input`: moves, each on what
/// the one before left, until nothing is left.
pub open spec fn run(s: ParserModel, input: Seq<u8>) -> Outcome
    decreases input.len(),
{
    let first = step(s, input);
    if 0 < first.consumed <= input.len() {
        run(first.next, input.skip(first.consumed as int)).after(first.event)
    } else {
        Outcome { state: s, events: Seq::empty() }
    }
}

/// The move of a decoder that collects a header, written out.
pub proof fn lemma_step_in_header(got: Seq<u8>, input: Seq<u8>)
    requires
        got.len() < HEADER_SIZE,
    ensures
        ({
            let n = taken(input.len(), HEADER_SIZE - got.len());
            let header = got + input.take(n as int);
            step(ParserModel::AccumulatingHeader(got), input) == (if input.len() == 0 {
                Step { next: ParserModel::AccumulatingHeader(got), consumed: 0, event: None }
            } else if header.len() < HEADER_SIZE {
                Step { next: ParserModel::AccumulatingHeader(header), consumed: n, event: None }
            } else {
                Step {
                    next: header_complete(header).0,
                    consumed: n,
                    event: header_complete(header).1,
                }
            })
        }),
{
    reveal(step);
}

/// The move of a decoder that collects a body, written out.
pub proof fn lemma_step_in_body(header: Header, user_len: u8, got: Seq<u8>, input: Seq<u8>)
    requires
        got.len() < body_size(user_len as nat),
    ensures
        ({
            let n = taken(input.len(), body_size(user_len as nat) - got.len());
            let body = got + input.take(n as int);
            step(ParserModel::AccumulatingBody(header, user_len, got), input) == (if input.len()
                == 0 {
                Step {
                    next: ParserModel::AccumulatingBody(header, user_len, got),
                    consumed: 0,
                    event: None,
                }
            } else if body.len() < body_size(user_len as nat) {
                Step {
                    next: ParserModel::AccumulatingBody(header, user_len, body),
                    consumed: n,
                    event: None,
                }
            } else {
                Step {
                    next: ParserModel::AwaitingSync1,
                    consumed: n,
                    event: Some(body_complete(header, body)),
                }
            })
        }),
{
    reveal(step);
}

/// A move from a state that a decoder can be in leads to such a state, and
/// uses up at least one byte of any input, and no more than there is. On no
/// input it changes nothing and tells nothing.
pub proof fn lemma_step_wf(s: ParserModel, input: Seq<u8>)
    requires
        s.wf(),
    ensures
        step(s, input).next.wf(),
        step(s, input).consumed <= input.len(),
        input.len() > 0 ==> step(s, input).consumed > 0,
        input.len() == 0 ==> step(s, input) == (Step { next: s, consumed: 0, event: None }),
{
    reveal(step);
    crate::link::frame::lemma_body_size_bounds(0);
    match s {
        ParserModel::AccumulatingHeader(got) => {
            let n = taken(input.len(), HEADER_SIZE - got.len());
            let header = got + input.take(n as int);
            if input.len() > 0 && header.len() == HEADER_SIZE {
                let length = header[2];
                if length > MIN_LENGTH {
                    crate::link::frame::lemma_body_size_bounds((length - MIN_LENGTH) as nat);
                }
            }
        },
        _ => {},
    }
}

/// A call from a state that a decoder can be in leaves it in such a state.
pub proof fn lemma_run_wf(s: ParserModel, input: Seq<u8>)
    requires
        s.wf(),
    ensures
        run(s, input).state.wf(),
    decreases input.len(),
{
    let first = step(s, input);
    lemma_step_wf(s, input);
    if 0 < first.consumed <= input.len() {
        lemma_run_wf(first.next, input.skip(first.consumed as int));
    }
}

} // verus!
