//! The streaming decoder of link frames.

use vstd::prelude::*;
use crate::link::crc::calc_crc;
use crate::link::frame::{
    body_crc_ok, body_is_ragged, body_size, lemma_block_at, lemma_body_size_bounds,
    lemma_user_data_len, spec_read_u16, user_data, CRC_BYTES_PER_BLOCK, DATA_BLOCK_SIZE,
    FULL_BLOCK_SIZE, HEADER_SIZE, MAX_BODY_SIZE, MAX_USER_DATA, MIN_LENGTH, SYNC1, SYNC2,
};
use crate::link::header::{Ctrl, Header};
use crate::link::model::{
    emitted, first_sync, lemma_first_sync_is, lemma_step_in_body, lemma_step_in_header,
    lemma_step_wf, run, step, FrameEvent, ParserModel,
};

verus! {

/// Why a frame was thrown away.
#[derive(Clone, Copy, PartialEq, Eq, Debug, Structural)]
pub enum ParseError {
    /// The length byte, given here, is below the five bytes that every
    /// frame has.
    BadLength(u8),
    /// The checksum of the header does not match.
    BadHeaderCRC,
    /// The checksum of a block of the body does not match.
    BadBodyCRC,
}

/// What a decoder reports to: it is called once for each frame and once for
/// each frame thrown away, while `Parser::decode` runs.
///
/// A handler says in `log` what it has been told, and each call adds to it
/// what the call was made with. What `Parser::decode` promises of a handler
/// is said in terms of `log`, and holds of handlers that keep this promise.
pub trait ParseHandler {
    /// Everything that this handler has been told so far, in order.
    spec fn log(&self) -> Seq<FrameEvent>;

    /// Called when a complete frame is received. The slice holds the user
    /// data and is good for the length of the call.
    fn on_frame(&mut self, header: &Header, slice: &[u8])
        ensures
            final(self).log() == old(self).log().push(FrameEvent::Frame(*header, slice@)),
    ;

    /// Called when bad data is received.
    fn on_error(&mut self, error: ParseError)
        ensures
            final(self).log() == old(self).log().push(FrameEvent::Error(error)),
    ;
}

/// Where a decoder stands between two moves, in numbers.
pub enum ParserState {
    /// Hunting for the first sync byte.
    WaitSync1,
    /// Awaiting the second sync byte.
    WaitSync2,
    /// The number of bytes received.
    WaitForHeader(usize),
    /// The number of bytes received, the number remaining, and the size of
    /// the user data.
    WaitForBody(usize, usize, u8),
}

/// A decoder of link frames from a stream of bytes that comes in pieces.
pub struct Parser {
    state: ParserState,
    /// The header of the frame whose body is being collected.
    header: Header,
    /// The bytes of the header, from the first sync byte on.
    header_arr: [u8; HEADER_SIZE],
    /// The bytes behind the header, checksums included.
    body_arr: [u8; MAX_BODY_SIZE],
}

impl View for Parser {
    type V = ParserModel;

    open spec fn view(&self) -> ParserModel {
        match self.phase() {
            ParserState::WaitSync1 => ParserModel::AwaitingSync1,
            ParserState::WaitSync2 => ParserModel::AwaitingSync2,
            ParserState::WaitForHeader(received) => ParserModel::AccumulatingHeader(
                self.header_buffer().take(received as int),
            ),
            ParserState::WaitForBody(received, _, user_len) => ParserModel::AccumulatingBody(
                self.stored_header(),
                user_len,
                self.body_buffer().take(received as int),
            ),
        }
    }
}

fn min(a: usize, b: usize) -> (m: usize)
    ensures
        m == if a <= b { a } else { b },
{
    if a <= b {
        a
    } else {
        b
    }
}

/// What a buffer holds once a block has been written over it at `at`: the
/// block there, and all that it held elsewhere.
proof fn lemma_block_written(before: Seq<u8>, after: Seq<u8>, at: int, block: Seq<u8>)
    requires
        0 <= at,
        at + block.len() <= before.len(),
        after == before.subrange(0, at) + (block + before.subrange(
            at,
            before.len() as int,
        ).skip(block.len() as int)),
    ensures
        after.len() == before.len(),
        after.take(at + block.len()) == before.take(at) + block,
        after.skip(at + block.len()) == before.skip(at + block.len()),
{
}

impl Parser {
    /// Where this decoder stands.
    pub closed spec fn phase(&self) -> ParserState {
        self.state
    }

    /// The header of the frame whose body this decoder collects; between
    /// frames, the header that was stored last.
    pub closed spec fn stored_header(&self) -> Header {
        self.header
    }

    /// The space set aside for the bytes of a header, whatever it holds.
    pub closed spec fn header_buffer(&self) -> Seq<u8> {
        self.header_arr@
    }

    /// The space set aside for the bytes of a body, whatever it holds.
    pub closed spec fn body_buffer(&self) -> Seq<u8> {
        self.body_arr@
    }

    /// What holds of a decoder between calls: the sync bytes that it has
    /// seen stand in the header buffer, and what it has of a body and what
    /// it awaits make up the body that the header has announced.
    pub open spec fn wf(&self) -> bool {
        &&& self.header_buffer().len() == HEADER_SIZE
        &&& self.body_buffer().len() == MAX_BODY_SIZE
        &&& match self.phase() {
            ParserState::WaitSync1 => true,
            ParserState::WaitSync2 => self.header_buffer()[0] == SYNC1,
            ParserState::WaitForHeader(received) => {
                &&& 2 <= received < HEADER_SIZE
                &&& self.header_buffer()[0] == SYNC1
                &&& self.header_buffer()[1] == SYNC2
            },
            ParserState::WaitForBody(received, remaining, user_len) => {
                &&& 0 < user_len <= MAX_USER_DATA
                &&& remaining > 0
                &&& received + remaining == body_size(user_len as nat)
            },
        }
    }

    /// The state of a decoder between calls is one that the state machine
    /// can be in.
    pub proof fn lemma_view_wf(&self)
        requires
            self.wf(),
        ensures
            self@.wf(),
    {
        if let ParserState::WaitForBody(_, _, user_len) = self.phase() {
            lemma_body_size_bounds(user_len as nat);
        }
    }

    /// A decoder that hunts for the first sync byte, with nothing but zeroes
    /// in its buffers and the header of all zeroes in store.
    pub fn new() -> (parser: Parser)
        ensures
            parser.wf(),
            parser@ == ParserModel::AwaitingSync1,
            parser.phase() == ParserState::WaitSync1,
            parser.stored_header() == (Header { ctrl: Ctrl::spec_from(0), dest: 0, src: 0 }),
            parser.header_buffer() == Seq::new(HEADER_SIZE as nat, |i: int| 0u8),
            parser.body_buffer() == Seq::new(MAX_BODY_SIZE as nat, |i: int| 0u8),
    {
        Parser {
            state: ParserState::WaitSync1,
            header: Header::default(),
            header_arr: [0;HEADER_SIZE],
            body_arr: [0;MAX_BODY_SIZE],
        }
    }

    /// The number that the first two bytes of `slice` spell, least
    /// significant byte first.
    pub fn read_u16(slice: &[u8]) -> (value: u16)
        requires
            slice@.len() >= 2,
        ensures
            value == spec_read_u16(slice@[0], slice@[1]),
    {
        let lo: u8 = slice[0];
        let hi: u8 = slice[1];
        assert(((hi as u16) << 8) | (lo as u16) == (lo + 256 * hi) as u16) by (bit_vector);
        ((hi as u16) << 8) | (lo as u16)
    }

    /// Bytes that the body of a frame with `num_payload_bytes` of user data
    /// takes.
    pub fn calc_body_size(num_payload_bytes: u8) -> (size: usize)
        ensures
            size == body_size(num_payload_bytes as nat),
            size == num_payload_bytes / 16 * 18 + if num_payload_bytes % 16 == 0 {
                0
            } else {
                num_payload_bytes % 16 + 2
            },
    {
        proof {
            reveal(body_size);
        }
        let num_full_blocks: usize = (num_payload_bytes as usize) / DATA_BLOCK_SIZE;
        let remainder: usize = (num_payload_bytes as usize) % DATA_BLOCK_SIZE;
        if remainder == 0 {
            num_full_blocks * FULL_BLOCK_SIZE
        } else {
            (num_full_blocks * FULL_BLOCK_SIZE) + remainder + CRC_BYTES_PER_BLOCK
        }
    }

    /// Copies `src` over the start of `dest`.
    pub fn mem_copy(src: &[u8], dest: &mut [u8])
        requires
            old(dest)@.len() >= src@.len(),
        ensures
            final(dest)@ == src@ + old(dest)@.skip(src@.len() as int),
    {
        let mut i: usize = 0;
        while i < src.len()
            invariant
                i <= src@.len() <= dest@.len(),
                dest@.len() == old(dest)@.len(),
                dest@ == src@.take(i as int) + old(dest)@.skip(i as int),
            decreases src@.len() - i,
        {
            dest[i] = src[i];
            i += 1;
        }
    }

    /// Checks every block of `body` against the checksum behind it, from
    /// left to right.
    pub fn verify_body_crc(body: &[u8]) -> (ok: bool)
        requires
            !body_is_ragged(body@.len()),
        ensures
            ok == body_crc_ok(body@),
    {
        let mut pos: usize = 0;
        let mut remainder: usize = body.len();
        assert(body@.skip(0) == body@);

        while remainder > 0
            invariant
                pos + remainder == body@.len() <= usize::MAX,
                !body_is_ragged(remainder as nat),
                body_crc_ok(body@) == body_crc_ok(body@.skip(pos as int)),
            decreases remainder,
        {
            proof {
                lemma_block_at(body@, pos as int);
            }
            let block_size: usize = min(DATA_BLOCK_SIZE, remainder - CRC_BYTES_PER_BLOCK);
            let expected_crc: u16 = calc_crc(&body[pos..pos + block_size]);
            let actual_crc: u16 = Parser::read_u16(&body[pos + block_size..body.len()]);

            if expected_crc != actual_crc {
                return false;
            }
            let consumed: usize = block_size + CRC_BYTES_PER_BLOCK;

            pos += consumed;
            remainder -= consumed;
        }

        true
    }

    /// Copies the data bytes of all blocks of `body` to the start of `dest`,
    /// leaving the checksums out, and returns how many there were.
    pub fn extract_user_data(body: &[u8], dest: &mut [u8]) -> (count: usize)
        requires
            !body_is_ragged(body@.len()),
            user_data(body@).len() <= old(dest)@.len(),
        ensures
            count == user_data(body@).len(),
            final(dest)@ == user_data(body@) + old(dest)@.skip(count as int),
    {
        let mut write_pos: usize = 0;
        let mut read_pos: usize = 0;
        let mut remainder: usize = body.len();
        let ghost room = dest.len();
        assert(body@.skip(0) == body@);
        assert(dest@.take(0) + user_data(body@) == user_data(body@));

        while remainder > 0
            invariant
                read_pos + remainder == body@.len() <= usize::MAX,
                !body_is_ragged(remainder as nat),
                write_pos <= dest@.len() == old(dest)@.len() == room,
                user_data(body@) == dest@.take(write_pos as int) + user_data(
                    body@.skip(read_pos as int),
                ),
                user_data(body@).len() <= dest@.len(),
                dest@.skip(write_pos as int) == old(dest)@.skip(write_pos as int),
            decreases remainder,
        {
            proof {
                lemma_block_at(body@, read_pos as int);
            }
            let block_size: usize = min(DATA_BLOCK_SIZE, remainder - CRC_BYTES_PER_BLOCK);
            let ghost before = dest@;
            let ghost behind = user_data(body@.skip(read_pos + block_size + 2));
            assert(user_data(body@).len() == write_pos + block_size + behind.len());

            let (_, tail) = dest.split_at_mut(write_pos);
            Parser::mem_copy(&body[read_pos..read_pos + block_size], tail);

            proof {
                lemma_block_written(
                    before,
                    dest@,
                    write_pos as int,
                    body@.subrange(read_pos as int, read_pos + block_size),
                );
                assert(user_data(body@) == dest@.take(write_pos + block_size) + behind);
            }
            write_pos += block_size;

            let consumed: usize = block_size + CRC_BYTES_PER_BLOCK;

            read_pos += consumed;
            remainder -= consumed;
        }

        write_pos
    }

    /// The header that a decoder collects when it has `received` bytes of
    /// it in its header buffer.
    pub open spec fn collecting_header(&self, received: usize) -> ParserModel {
        ParserModel::AccumulatingHeader(self.header_buffer().take(received as int))
    }

    /// The body that a decoder collects when it has `received` bytes of it
    /// in its body buffer, under the header in store.
    pub open spec fn collecting_body(&self, received: usize, num_user_bytes: u8) -> ParserModel {
        ParserModel::AccumulatingBody(
            self.stored_header(),
            num_user_bytes,
            self.body_buffer().take(received as int),
        )
    }

    /// Takes the bytes of `slice` that the header still lacks behind the
    /// `received` bytes that stand in the header buffer, and acts on the
    /// header when it is complete: a length byte under five and a wrong
    /// checksum are errors, in this order; a frame of length five is handed
    /// over as it is; a longer one has its header stored and its body
    /// awaited. Where the decoder stood before does not matter.
    pub fn decode_header<T: ParseHandler>(
        &mut self,
        slice: &[u8],
        received: usize,
        handler: &mut T,
    ) -> (consumed: usize)
        requires
            2 <= received < HEADER_SIZE,
            old(self).header_buffer()[0] == SYNC1,
            old(self).header_buffer()[1] == SYNC2,
        ensures
            final(self).wf(),
            final(self)@ == step(old(self).collecting_header(received), slice@).next,
            consumed == step(old(self).collecting_header(received), slice@).consumed,
            final(handler).log() == old(handler).log() + emitted(
                step(old(self).collecting_header(received), slice@).event,
            ),
    {
        proof {
            lemma_step_in_header(self.header_buffer().take(received as int), slice@);
        }
        // consume the minimum of the length of the slice or the remainder
        let remaining: usize = HEADER_SIZE - received;
        let consumed: usize = min(slice.len(), remaining);

        let (_, tail) = self.header_arr.split_at_mut(received);
        Parser::mem_copy(&slice[0..consumed], tail);

        let new_received: usize = received + consumed;
        let ghost got = old(self).header_arr@.take(received as int);
        let ghost bytes = got + slice@.take(consumed as int);
        assert(self.header_arr@.take(new_received as int) == bytes);

        if new_received < HEADER_SIZE {
            self.state = ParserState::WaitForHeader(new_received);
            return consumed;
        }
        // we have a full header in the buffer. Time to analyze and state transition

        assert(self.header_arr@ == bytes);
        let len: u8 = self.header_arr[2];

        if len < MIN_LENGTH {
            handler.on_error(ParseError::BadLength(len));
            self.state = ParserState::WaitSync1;
            return consumed;
        }
        let ctrl: u8 = self.header_arr[3];
        let dest: u16 = Parser::read_u16(&self.header_arr[4..6]);
        let src: u16 = Parser::read_u16(&self.header_arr[6..8]);
        let crc: u16 = Parser::read_u16(&self.header_arr[8..10]);

        let expected_crc: u16 = calc_crc(&self.header_arr[0..8]);

        if crc != expected_crc {
            handler.on_error(ParseError::BadHeaderCRC);
            self.state = ParserState::WaitSync1;
            return consumed;
        }
        self.header = Header::from(Ctrl::from(ctrl), dest, src);

        let num_user_bytes: u8 = len - MIN_LENGTH;

        if num_user_bytes == 0 {
            handler.on_frame(&self.header, &self.body_arr[0..0]);
            self.state = ParserState::WaitSync1;
            assert(self.body_arr@.subrange(0, 0) == Seq::<u8>::empty());
        } else {
            proof {
                lemma_body_size_bounds(num_user_bytes as nat);
            }
            self.state = ParserState::WaitForBody(
                0,
                Parser::calc_body_size(num_user_bytes),
                num_user_bytes,
            );
        }

        consumed
    }

    /// Takes the bytes of `slice` that the body still lacks behind the
    /// `received` bytes that stand in the body buffer, and acts on the body
    /// when it is complete: the frame is handed over under the header in
    /// store if every checksum matches, and an error is reported if not.
    /// Where the decoder stood before does not matter.
    pub fn decode_body<T: ParseHandler>(
        &mut self,
        slice: &[u8],
        received: usize,
        remaining: usize,
        num_user_bytes: u8,
        handler: &mut T,
    ) -> (consumed: usize)
        requires
            0 < num_user_bytes <= MAX_USER_DATA,
            remaining > 0,
            received + remaining == body_size(num_user_bytes as nat),
        ensures
            final(self).wf(),
            final(self).stored_header() == old(self).stored_header(),
            final(self)@ == step(old(self).collecting_body(received, num_user_bytes), slice@).next,
            consumed == step(
                old(self).collecting_body(received, num_user_bytes),
                slice@,
            ).consumed,
            final(handler).log() == old(handler).log() + emitted(
                step(old(self).collecting_body(received, num_user_bytes), slice@).event,
            ),
    {
        proof {
            lemma_body_size_bounds(num_user_bytes as nat);
            lemma_step_in_body(
                self.stored_header(),
                num_user_bytes,
                self.body_buffer().take(received as int),
                slice@,
            );
        }
        let consumed: usize = min(remaining, slice.len());

        // we copy this amount into the body buffer
        let (_, tail) = self.body_arr.split_at_mut(received);
        Parser::mem_copy(&slice[0..consumed], tail);

        let remainder: usize = remaining - consumed;
        let new_received: usize = received + consumed;
        let ghost got = old(self).body_arr@.take(received as int);
        let ghost bytes = got + slice@.take(consumed as int);
        assert(self.body_arr@.take(new_received as int) == bytes);

        if remainder > 0 {
            self.state = ParserState::WaitForBody(new_received, remainder, num_user_bytes);
            return consumed;
        }
        // we have all the data, and no matter what happens we transition back to WaitSync1

        self.state = ParserState::WaitSync1;

        if !Parser::verify_body_crc(&self.body_arr[0..new_received]) {
            handler.on_error(ParseError::BadBodyCRC);
            return consumed;
        }
        // extract the user data and call a successful frame

        let mut data: [u8; MAX_USER_DATA] = [0;MAX_USER_DATA];
        proof {
            lemma_user_data_len(bytes, num_user_bytes as nat);
        }

        let num_user_data: usize = Parser::extract_user_data(
            &self.body_arr[0..new_received],
            &mut data,
        );

        handler.on_frame(&self.header, &data[0..num_user_data]);
        assert(data@.subrange(0, num_user_data as int) == user_data(bytes));

        consumed
    }

    /// Skips over values until it finds the first sync byte. Where there is
    /// none, all of `slice` is consumed; where there is one, it is consumed
    /// with all that stands before it.
    ///
    /// The handler is not called. Where the decoder stood before does not
    /// matter: it awaits the second sync byte if the first was found, and is
    /// left as it was if not.
    pub fn wait_sync1(&mut self, slice: &[u8]) -> (consumed: usize)
        ensures
            consumed == step(ParserModel::AwaitingSync1, slice@).consumed,
            consumed == if first_sync(slice@) < slice@.len() {
                first_sync(slice@) + 1
            } else {
                slice@.len()
            },
            step(ParserModel::AwaitingSync1, slice@).event is None,
            first_sync(slice@) < slice@.len() ==> final(self).wf() && final(self)@
                == ParserModel::AwaitingSync2 && step(ParserModel::AwaitingSync1, slice@).next
                == ParserModel::AwaitingSync2,
            first_sync(slice@) >= slice@.len() ==> *final(self) == *old(self) && step(
                ParserModel::AwaitingSync1,
                slice@,
            ).next == ParserModel::AwaitingSync1,
    {
        proof {
            reveal(step);
        }
        let mut i: usize = 0;
        while i < slice.len()
            invariant
                i <= slice@.len(),
                forall|j: int| 0 <= j < i ==> slice@[j] != SYNC1,
                *self == *old(self),
            decreases slice@.len() - i,
        {
            if slice[i] == SYNC1 {
                proof {
                    reveal(step);
                    lemma_first_sync_is(slice@, i as int);
                }
                self.header_arr[0] = SYNC1;
                self.state = ParserState::WaitSync2;
                return i + 1;
            }
            i += 1;
        }
        proof {
            lemma_first_sync_is(slice@, slice@.len() as int);
        }
        slice.len()
    }

    /// Looks at one byte: the second sync byte starts a header, any other
    /// byte sends the decoder back to the hunt.
    ///
    /// The handler is not called. Where the decoder stood before does not
    /// matter; on an empty slice it is left as it was.
    pub fn wait_sync2(&mut self, slice: &[u8]) -> (consumed: usize)
        requires
            old(self).header_buffer()[0] == SYNC1,
        ensures
            consumed == step(ParserModel::AwaitingSync2, slice@).consumed,
            step(ParserModel::AwaitingSync2, slice@).event is None,
            slice@.len() > 0 ==> final(self).wf() && final(self)@ == step(
                ParserModel::AwaitingSync2,
                slice@,
            ).next,
            slice@.len() == 0 ==> *final(self) == *old(self),
    {
        proof {
            reveal(step);
        }
        if slice.len() == 0 {
            0
        } else if slice[0] == SYNC2 {
            self.header_arr[1] = SYNC2;
            self.state = ParserState::WaitForHeader(2);
            assert(self.header_arr@.take(2) == seq![SYNC1, SYNC2]);
            1
        } else {
            self.state = ParserState::WaitSync1;
            1
        }
    }

    /// Makes one move on `slice` and returns the number of bytes consumed
    /// from it.
    pub fn decode_one<T: ParseHandler>(
        &mut self,
        slice: &[u8],
        handler: &mut T,
    ) -> (consumed: usize)
        requires
            old(self).wf(),
        ensures
            final(self).wf(),
            final(self)@ == step(old(self)@, slice@).next,
            consumed == step(old(self)@, slice@).consumed,
            final(handler).log() == old(handler).log() + emitted(step(old(self)@, slice@).event),
    {
        proof {
            self.lemma_view_wf();
            lemma_step_wf(self@, slice@);
        }
        match self.state {
            ParserState::WaitSync1 => self.wait_sync1(slice),
            ParserState::WaitSync2 => self.wait_sync2(slice),
            ParserState::WaitForHeader(received) => self.decode_header(slice, received, handler),
            ParserState::WaitForBody(received, remaining, user_bytes) => self.decode_body(
                slice,
                received,
                remaining,
                user_bytes,
                handler,
            ),
        }
    }

    /// Decodes all the bytes in the slice, from the state that earlier calls
    /// left this decoder in, and tells `handler` of each frame and of each
    /// frame thrown away, in the order of the stream.
    ///
    /// The slice may hold any bytes and have any length. What it comes to is
    /// what `run` says: the decoder makes one move after the other, each on
    /// what the one before has left of the slice, until nothing is left. A
    /// frame may start in one call and end in a later one.
    ///
    /// Where the slices are cut makes no difference: the handler is told the
    /// same, in the same order, as when the bytes come one per call. The
    /// module `chunking` proves it.
    pub fn decode<T: ParseHandler>(&mut self, slice: &[u8], handler: &mut T)
        requires
            old(self).wf(),
        ensures
            final(self).wf(),
            final(self)@ == run(old(self)@, slice@).state,
            final(handler).log() == old(handler).log() + run(old(self)@, slice@).events,
    {
        let mut total_consumed: usize = 0;
        proof {
            assert(slice@.skip(0) == slice@);
            assert(run(old(self)@, slice@).after_all(Seq::empty()) == run(old(self)@, slice@));
        }

        loop
            invariant
                self.wf(),
                total_consumed <= slice@.len(),
                run(old(self)@, slice@) == run(self@, slice@.skip(total_consumed as int)).after_all(
                    handler.log().skip(old(handler).log().len() as int),
                ),
                handler.log().take(old(handler).log().len() as int) == old(handler).log(),
                old(handler).log().len() <= handler.log().len(),
            ensures
                self.wf(),
                total_consumed == slice@.len(),
                self@ == run(old(self)@, slice@).state,
                handler.log() == old(handler).log() + run(old(self)@, slice@).events,
            decreases slice@.len() - total_consumed,
        {
            let ghost old_self = *self;
            let ghost before = self@;
            let ghost told = handler.log();
            let ghost rest = slice@.skip(total_consumed as int);
            let subslice = &slice[total_consumed..slice.len()];
            let num_consumed: usize = self.decode_one(subslice, handler);
            proof {
                let base = old(handler).log().len() as int;
                let first = step(before, rest);
                old_self.lemma_view_wf();
                lemma_step_wf(before, rest);
                assert(rest.skip(num_consumed as int) == slice@.skip(
                    total_consumed + num_consumed,
                ));
                assert(handler.log().skip(base) == told.skip(base) + emitted(first.event));
                assert(handler.log().take(base) == told.take(base));
            }
            total_consumed += num_consumed;
            if num_consumed == 0 {
                break;
            }
        }
    }
}

} // verus!
