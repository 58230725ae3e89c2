//! What a decoder makes of frames: of a whole frame at the hunt, of a
//! frame made for given user data, of a header with a changed byte, of
//! noise before a frame, and of a sync byte that starts no frame.

use vstd::prelude::*;
use crate::link::chunking::{
    feed_all, lemma_feed_all_concat, lemma_feed_noise, lemma_run_is_feed_all,
};
use crate::link::crc::{crc16, lemma_crc_detects_changed_byte};
use crate::link::frame::{
    body_size, encode_body, encode_frame, encode_header, header_crc_ok, header_fields,
    lemma_body_size_bounds, lemma_body_size_by_blocks, lemma_changed_body_is_caught,
    lemma_encode_body, lemma_u16_bytes, spec_u16_bytes, HEADER_SIZE,
    MAX_USER_DATA, MIN_LENGTH, SYNC1, SYNC2,
};
use crate::link::header::{Ctrl, Header};
use crate::link::model::{
    body_complete, header_complete, lemma_step_wf, run, step, FrameEvent, Outcome, ParserModel,
};
use crate::link::parser::ParseError;

verus! {

/// True of the ten bytes of a header that a decoder accepts: the length
/// byte is five or more and the checksum matches.
pub open spec fn header_accepted(header: Seq<u8>) -> bool {
    &&& header.len() == HEADER_SIZE
    &&& header[2] >= MIN_LENGTH
    &&& header_crc_ok(header)
}

/// What a decoder does with a header that it does not accept on account of
/// its checksum.
pub open spec fn bad_header_crc() -> (ParserModel, Option<FrameEvent>) {
    (ParserModel::AwaitingSync1, Some(FrameEvent::Error(ParseError::BadHeaderCRC)))
}

/// The header checksum catches every change of one byte: where one of the
/// first eight bytes of an accepted header is changed and the checksum
/// behind them is kept, the header is thrown away, for its checksum unless
/// the change took the length byte under five.
pub proof fn lemma_changed_header_is_caught(header: Seq<u8>, changed: Seq<u8>, at: int)
    requires
        header_accepted(header),
        changed.len() == HEADER_SIZE,
        0 <= at < 8,
        changed[at] != header[at],
        forall|i: int| 0 <= i < HEADER_SIZE && i != at ==> changed[i] == header[i],
    ensures
        changed[2] >= MIN_LENGTH ==> header_complete(changed) == bad_header_crc(),
        changed[2] < MIN_LENGTH ==> header_complete(changed) == (
            ParserModel::AwaitingSync1,
            Some(FrameEvent::Error(ParseError::BadLength(changed[2]))),
        ),
{
    lemma_crc_detects_changed_byte(header.take(8), changed.take(8), at);
}

/// The header with one bit of one byte flipped.
pub open spec fn flip_bit(header: Seq<u8>, at: int, bit: u8) -> Seq<u8> {
    header.update(at, header[at] ^ (1u8 << bit))
}

/// The header checksum catches every flipped bit: where one bit in the
/// first eight bytes of an accepted header is flipped and the checksum
/// behind them is kept, the header is thrown away, for its checksum unless
/// the flip took the length byte under five.
pub proof fn lemma_flipped_bit_is_caught(header: Seq<u8>, at: int, bit: u8)
    requires
        header_accepted(header),
        0 <= at < 8,
        bit < 8,
    ensures
        flip_bit(header, at, bit)[2] >= MIN_LENGTH ==> header_complete(flip_bit(header, at, bit))
            == bad_header_crc(),
        flip_bit(header, at, bit)[2] < MIN_LENGTH ==> header_complete(flip_bit(header, at, bit))
            == (
            ParserModel::AwaitingSync1,
            Some(
                FrameEvent::Error(ParseError::BadLength(flip_bit(header, at, bit)[2])),
            ),
        ),
        at != 2 ==> header_complete(flip_bit(header, at, bit)) == bad_header_crc(),
{
    let byte = header[at];
    assert(bit < 8 ==> byte ^ (1u8 << bit) != byte) by (bit_vector);
    lemma_changed_header_is_caught(header, flip_bit(header, at, bit), at);
}

/// Every accepted header has a bit whose flip is answered with
/// `BadHeaderCRC`: the check of the header is not idle.
pub proof fn lemma_some_flip_gives_bad_header_crc(header: Seq<u8>)
    requires
        header_accepted(header),
    ensures
        exists|at: int, bit: u8|
            0 <= at < 8 && bit < 8 && #[trigger] header_complete(flip_bit(header, at, bit))
                == bad_header_crc(),
{
    lemma_flipped_bit_is_caught(header, 3, 0);
}

/// The bytes that a frame takes in the stream, by the ten bytes of its
/// header: the header alone where the decoder does not accept it or it
/// announces no user data, the header and the body that it announces
/// otherwise.
pub open spec fn frame_size(header: Seq<u8>) -> nat {
    if header_accepted(header) {
        HEADER_SIZE as nat + body_size((header[2] - MIN_LENGTH) as nat)
    } else {
        HEADER_SIZE as nat
    }
}

/// What the handler is told of the frame that `frame` holds from its first
/// byte to its last.
pub open spec fn frame_event(frame: Seq<u8>) -> FrameEvent {
    let header = frame.take(HEADER_SIZE as int);
    match header_complete(header).1 {
        Some(event) => event,
        None => body_complete(header_fields(header), frame.skip(HEADER_SIZE as int)),
    }
}

/// A call of a decoder at the hunt on input that starts with the first sync
/// byte goes on from there as a call of a decoder that awaits the second.
pub proof fn lemma_run_at_sync1(input: Seq<u8>)
    requires
        input.len() > 0,
        input[0] == SYNC1,
    ensures
        run(ParserModel::AwaitingSync1, input) == run(ParserModel::AwaitingSync2, input.skip(1)),
{
    reveal(step);
    assert(input.contains(SYNC1));
    let then = run(ParserModel::AwaitingSync2, input.skip(1));
    assert(Seq::<FrameEvent>::empty() + then.events == then.events);
}

/// A call of a decoder that awaits the second sync byte goes on behind the
/// first byte of the input: with a header of the two sync bytes if that byte
/// is the second sync byte, at the hunt if it is not.
pub proof fn lemma_run_at_sync2(input: Seq<u8>)
    requires
        input.len() > 0,
    ensures
        run(ParserModel::AwaitingSync2, input) == run(
            if input[0] == SYNC2 {
                ParserModel::AccumulatingHeader(seq![SYNC1, SYNC2])
            } else {
                ParserModel::AwaitingSync1
            },
            input.skip(1),
        ),
{
    reveal(step);
    let then = run(step(ParserModel::AwaitingSync2, input).next, input.skip(1));
    assert(Seq::<FrameEvent>::empty() + then.events == then.events);
}

/// A first sync byte that the second does not follow is dropped together
/// with the byte behind it, and the handler is told nothing: the decoder is
/// back at the hunt on what comes then, in the same call or in a later one.
pub proof fn lemma_stray_sync_is_dropped(other: u8, rest: Seq<u8>)
    requires
        other != SYNC2,
    ensures
        run(ParserModel::AwaitingSync1, seq![SYNC1]) == (Outcome {
            state: ParserModel::AwaitingSync2,
            events: Seq::empty(),
        }),
        run(ParserModel::AwaitingSync2, seq![other] + rest) == run(
            ParserModel::AwaitingSync1,
            rest,
        ),
        run(ParserModel::AwaitingSync1, seq![SYNC1, other] + rest) == run(
            ParserModel::AwaitingSync1,
            rest,
        ),
{
    let one = seq![SYNC1];
    lemma_run_at_sync1(one);
    lemma_step_wf(ParserModel::AwaitingSync2, one.skip(1));

    let tail = seq![other] + rest;
    lemma_run_at_sync2(tail);
    assert(tail.skip(1) == rest);

    let all = seq![SYNC1, other] + rest;
    lemma_run_at_sync1(all);
    assert(all.skip(1) == tail);
}

/// Noise before a frame costs nothing: a call of a decoder at the hunt on
/// bytes that hold no first sync byte, and on what comes behind them, goes
/// on as a call on what comes behind them. So a sync pair that stands behind
/// noise is found in the same call.
pub proof fn lemma_noise_is_skipped(noise: Seq<u8>, rest: Seq<u8>)
    requires
        !noise.contains(SYNC1),
    ensures
        run(ParserModel::AwaitingSync1, noise + rest) == run(ParserModel::AwaitingSync1, rest),
{
    let hunt = ParserModel::AwaitingSync1;
    lemma_run_is_feed_all(hunt, noise + rest);
    lemma_run_is_feed_all(hunt, rest);
    lemma_feed_noise(noise);
    lemma_feed_all_concat(hunt, noise, rest);
    let then = feed_all(hunt, rest);
    assert(Seq::<FrameEvent>::empty() + then.events == then.events);
}

/// Resynchronisation: a decoder at the hunt that is given noise, a first
/// sync byte that the second does not follow, more noise, and then a frame,
/// all in one call, tells the handler nothing of what stands before the
/// frame, and of the frame what it tells of it when the frame comes alone.
pub proof fn lemma_frame_behind_false_start(
    noise: Seq<u8>,
    other: u8,
    more_noise: Seq<u8>,
    frame: Seq<u8>,
    rest: Seq<u8>,
)
    requires
        !noise.contains(SYNC1),
        other != SYNC2,
        !more_noise.contains(SYNC1),
        frame.len() >= HEADER_SIZE,
        frame[0] == SYNC1,
        frame[1] == SYNC2,
        frame.len() == frame_size(frame.take(HEADER_SIZE as int)),
    ensures
        run(
            ParserModel::AwaitingSync1,
            noise + (seq![SYNC1, other] + (more_noise + (frame + rest))),
        ) == run(ParserModel::AwaitingSync1, rest).after(Some(frame_event(frame))),
{
    lemma_noise_is_skipped(noise, seq![SYNC1, other] + (more_noise + (frame + rest)));
    lemma_stray_sync_is_dropped(other, more_noise + (frame + rest));
    lemma_noise_is_skipped(more_noise, frame + rest);
    lemma_frame_at_the_hunt(frame, rest);
}

/// A call of a decoder that collects a header, on input that holds the rest
/// of the header, acts on the header and goes on behind it.
pub proof fn lemma_run_to_end_of_header(got: Seq<u8>, input: Seq<u8>)
    requires
        ParserModel::AccumulatingHeader(got).wf(),
        got.len() + input.len() >= HEADER_SIZE,
    ensures
        ({
            let wanted = HEADER_SIZE - got.len();
            let header = got + input.take(wanted);
            run(ParserModel::AccumulatingHeader(got), input) == run(
                header_complete(header).0,
                input.skip(wanted),
            ).after(header_complete(header).1)
        }),
{
    reveal(step);
}

/// A call of a decoder that collects a body, on input that holds the rest of
/// the body, tells the handler of the frame and goes on at the hunt behind
/// it.
pub proof fn lemma_run_to_end_of_body(header: Header, user_len: u8, got: Seq<u8>, input: Seq<u8>)
    requires
        ParserModel::AccumulatingBody(header, user_len, got).wf(),
        got.len() + input.len() >= body_size(user_len as nat),
    ensures
        ({
            let wanted = body_size(user_len as nat) - got.len();
            let body = got + input.take(wanted);
            run(ParserModel::AccumulatingBody(header, user_len, got), input) == run(
                ParserModel::AwaitingSync1,
                input.skip(wanted),
            ).after(Some(body_complete(header, body)))
        }),
{
    reveal(step);
}

/// Taking a sequence apart and putting it together again.
proof fn lemma_parts(a: Seq<u8>, b: Seq<u8>, n: int)
    requires
        0 <= n <= a.len(),
    ensures
        (a + b).take(n) == a.take(n),
        (a + b).skip(n) == a.skip(n) + b,
        a.take(n) + (a.skip(n) + b) == a + b,
        (a + b).skip(a.len() as int) == b,
        (a + b).take(a.len() as int) == a,
        Seq::<u8>::empty() + a == a,
{
}

/// A decoder at the hunt that is given the ten bytes of a header acts on
/// the header and goes on behind it, in the same call.
pub proof fn lemma_header_at_the_hunt(header: Seq<u8>, rest: Seq<u8>)
    requires
        header.len() == HEADER_SIZE,
        header[0] == SYNC1,
        header[1] == SYNC2,
    ensures
        run(ParserModel::AwaitingSync1, header + rest) == run(
            header_complete(header).0,
            rest,
        ).after(header_complete(header).1),
{
    let input = header + rest;
    let got = seq![SYNC1, SYNC2];
    let behind_sync = input.skip(1).skip(1);
    lemma_run_at_sync1(input);
    lemma_run_at_sync2(input.skip(1));
    lemma_run_to_end_of_header(got, behind_sync);
    assert(behind_sync == header.skip(2) + rest);
    lemma_parts(header.skip(2), rest, 8);
    assert(got + header.skip(2) == header);
}

/// A decoder that is about to collect the body of a frame and is given the
/// whole body tells the handler of the frame and is back at the hunt on what
/// comes behind the body, in the same call.
pub proof fn lemma_body_in_one_call(header: Header, user_len: u8, body: Seq<u8>, rest: Seq<u8>)
    requires
        0 < user_len <= MAX_USER_DATA,
        body.len() == body_size(user_len as nat),
    ensures
        run(ParserModel::AccumulatingBody(header, user_len, Seq::empty()), body + rest) == run(
            ParserModel::AwaitingSync1,
            rest,
        ).after(Some(body_complete(header, body))),
{
    lemma_body_size_bounds(user_len as nat);
    lemma_run_to_end_of_body(header, user_len, Seq::empty(), body + rest);
    lemma_parts(body, rest, body.len() as int);
}

/// A decoder at the hunt that is given a frame, from the sync pair to the
/// last byte that its header announces, tells the handler of that frame,
/// once, and is back at the hunt on what comes behind the frame, in the same
/// call.
pub proof fn lemma_frame_at_the_hunt(frame: Seq<u8>, rest: Seq<u8>)
    requires
        frame.len() >= HEADER_SIZE,
        frame[0] == SYNC1,
        frame[1] == SYNC2,
        frame.len() == frame_size(frame.take(HEADER_SIZE as int)),
    ensures
        run(ParserModel::AwaitingSync1, frame + rest) == run(
            ParserModel::AwaitingSync1,
            rest,
        ).after(Some(frame_event(frame))),
{
    let header = frame.take(HEADER_SIZE as int);
    let body = frame.skip(HEADER_SIZE as int);
    lemma_parts(frame, rest, HEADER_SIZE as int);
    lemma_header_at_the_hunt(header, body + rest);
    if header_complete(header).1 is Some {
        lemma_body_size_by_blocks(0);
        lemma_parts(body, rest, 0);
    } else {
        let user_len = (header[2] - MIN_LENGTH) as u8;
        lemma_body_in_one_call(header_fields(header), user_len, body, rest);
        let end = run(ParserModel::AwaitingSync1, rest).after(Some(frame_event(frame)));
        assert(Seq::<FrameEvent>::empty() + end.events == end.events);
    }
}

/// A length byte under five is answered with `BadLength` and the byte,
/// whatever the rest of the header and its checksum hold; no frame is
/// handed over, and the decoder is back at the hunt behind the header.
pub proof fn lemma_short_length_is_bad(header: Seq<u8>, rest: Seq<u8>)
    requires
        header.len() == HEADER_SIZE,
        header[0] == SYNC1,
        header[1] == SYNC2,
        header[2] < MIN_LENGTH,
    ensures
        run(ParserModel::AwaitingSync1, header + rest) == run(
            ParserModel::AwaitingSync1,
            rest,
        ).after(Some(FrameEvent::Error(ParseError::BadLength(header[2])))),
{
    lemma_header_at_the_hunt(header, rest);
}

/// A header with a length byte of five or more is answered with
/// `BadHeaderCRC` if and only if its last two bytes are not the checksum of
/// its first eight; it is then thrown away, and the decoder is back at the
/// hunt behind it.
pub proof fn lemma_wrong_header_crc_is_bad(header: Seq<u8>, rest: Seq<u8>)
    requires
        header.len() == HEADER_SIZE,
        header[0] == SYNC1,
        header[1] == SYNC2,
        header[2] >= MIN_LENGTH,
    ensures
        header_complete(header).1 == Some(FrameEvent::Error(ParseError::BadHeaderCRC))
            <==> !header_crc_ok(header),
        !header_crc_ok(header) ==> run(ParserModel::AwaitingSync1, header + rest) == run(
            ParserModel::AwaitingSync1,
            rest,
        ).after(Some(FrameEvent::Error(ParseError::BadHeaderCRC))),
{
    lemma_header_at_the_hunt(header, rest);
}

/// A header with the length byte five and the right checksum is a whole
/// frame: it is handed over with the fields of the header and no user data,
/// no body is awaited, and the decoder is back at the hunt behind the
/// header.
pub proof fn lemma_length_five_is_a_frame(header: Seq<u8>, rest: Seq<u8>)
    requires
        header.len() == HEADER_SIZE,
        header[0] == SYNC1,
        header[1] == SYNC2,
        header[2] == MIN_LENGTH,
        header_crc_ok(header),
    ensures
        run(ParserModel::AwaitingSync1, header + rest) == run(
            ParserModel::AwaitingSync1,
            rest,
        ).after(Some(FrameEvent::Frame(header_fields(header), Seq::empty()))),
{
    lemma_header_at_the_hunt(header, rest);
}

/// A decoder at the hunt that is given an accepted header with one bit
/// flipped behind the sync pair, and the checksum kept, throws the header
/// away and is back at the hunt behind it: for its checksum, unless the flip
/// took the length byte under five.
pub proof fn lemma_flipped_header_at_the_hunt(header: Seq<u8>, at: int, bit: u8, rest: Seq<u8>)
    requires
        header_accepted(header),
        header[0] == SYNC1,
        header[1] == SYNC2,
        2 <= at < 8,
        bit < 8,
    ensures
        run(ParserModel::AwaitingSync1, flip_bit(header, at, bit) + rest) == run(
            ParserModel::AwaitingSync1,
            rest,
        ).after(
            Some(
                FrameEvent::Error(
                    if flip_bit(header, at, bit)[2] < MIN_LENGTH {
                        ParseError::BadLength(flip_bit(header, at, bit)[2])
                    } else {
                        ParseError::BadHeaderCRC
                    },
                ),
            ),
        ),
{
    lemma_flipped_bit_is_caught(header, at, bit);
    lemma_header_at_the_hunt(flip_bit(header, at, bit), rest);
}

/// A decoder at the hunt that is given a frame with one byte of its body
/// changed, be it data or checksum, throws the frame away for the checksum
/// of its body and is back at the hunt behind it.
pub proof fn lemma_changed_body_at_the_hunt(
    frame: Seq<u8>,
    changed: Seq<u8>,
    at: int,
    rest: Seq<u8>,
)
    requires
        frame.len() >= HEADER_SIZE,
        frame[0] == SYNC1,
        frame[1] == SYNC2,
        frame.len() == frame_size(frame.take(HEADER_SIZE as int)),
        frame_event(frame) is Frame,
        changed.len() == frame.len(),
        HEADER_SIZE <= at < frame.len(),
        changed[at] != frame[at],
        forall|i: int| 0 <= i < frame.len() && i != at ==> changed[i] == frame[i],
    ensures
        run(ParserModel::AwaitingSync1, changed + rest) == run(
            ParserModel::AwaitingSync1,
            rest,
        ).after(Some(FrameEvent::Error(ParseError::BadBodyCRC))),
{
    let header = frame.take(HEADER_SIZE as int);
    let body = frame.skip(HEADER_SIZE as int);
    let changed_body = changed.skip(HEADER_SIZE as int);
    assert(changed.take(HEADER_SIZE as int) == header);
    lemma_body_size_by_blocks(0);
    lemma_changed_body_is_caught(body, changed_body, at - HEADER_SIZE);
    lemma_frame_at_the_hunt(changed, rest);
}

/// Round trip: a decoder at the hunt that is given the frame made for
/// `data` hands `data` over, under the header that the frame was made with,
/// and is back at the hunt behind the frame.
pub proof fn lemma_encoded_frame_decodes(
    ctrl: u8,
    dest: u16,
    src: u16,
    data: Seq<u8>,
    rest: Seq<u8>,
)
    requires
        data.len() <= MAX_USER_DATA,
    ensures
        run(ParserModel::AwaitingSync1, encode_frame(ctrl, dest, src, data) + rest) == run(
            ParserModel::AwaitingSync1,
            rest,
        ).after(
            Some(FrameEvent::Frame(Header { ctrl: Ctrl::spec_from(ctrl), dest, src }, data)),
        ),
{
    let frame = encode_frame(ctrl, dest, src, data);
    let header = encode_header(data.len(), ctrl, dest, src);
    let fields = seq![SYNC1, SYNC2, (MIN_LENGTH + data.len()) as u8, ctrl] + spec_u16_bytes(dest)
        + spec_u16_bytes(src);
    lemma_u16_bytes(dest);
    lemma_u16_bytes(src);
    lemma_u16_bytes(crc16(fields));
    lemma_encode_body(data);
    assert(header.len() == HEADER_SIZE);
    assert(header.take(8) == fields);
    assert(frame.take(HEADER_SIZE as int) == header);
    assert(frame.skip(HEADER_SIZE as int) == encode_body(data));
    assert(header_accepted(header));
    assert(header_fields(header) == Header { ctrl: Ctrl::spec_from(ctrl), dest, src });
    if data.len() == 0 {
        assert(data == Seq::<u8>::empty());
    }
    lemma_frame_at_the_hunt(frame, rest);
}

} // verus!
