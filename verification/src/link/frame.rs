//! The wire format of a link frame, as functions on byte sequences.
//!
//! A frame is a header of ten bytes, the last two of which are the checksum
//! of the first eight, followed by a body when the frame carries user data.
//! The body is cut into blocks of up to sixteen data bytes, each followed by
//! the two bytes of its own checksum.

use vstd::prelude::*;
use crate::link::crc::{crc16, lemma_crc_detects_changed_byte};
use crate::link::header::{Ctrl, Header};

verus! {

/// First byte of every frame.
pub const SYNC1: u8 = 0x05;

/// Second byte of every frame.
pub const SYNC2: u8 = 0x64;

/// Bytes in a header, the two sync bytes and the checksum included.
pub const HEADER_SIZE: usize = 10;

/// The length byte of a frame without user data: it counts the control byte
/// and the two addresses.
pub const MIN_LENGTH: u8 = 5;

/// Data bytes in a full block of the body.
pub const DATA_BLOCK_SIZE: usize = 16;

/// Checksum bytes behind each block of the body.
pub const CRC_BYTES_PER_BLOCK: usize = 2;

/// Bytes that a full block takes in the body.
pub const FULL_BLOCK_SIZE: usize = DATA_BLOCK_SIZE + CRC_BYTES_PER_BLOCK;

/// The most user data that one frame can carry.
pub const MAX_USER_DATA: usize = 250;

/// The longest body: fifteen full blocks and one of ten data bytes.
pub const MAX_BODY_SIZE: usize = 282;

/// The number that two bytes spell, least significant byte first.
pub open spec fn spec_read_u16(lo: u8, hi: u8) -> u16 {
    (lo + 256 * hi) as u16
}

/// Bytes that the body of a frame with `user_len` bytes of user data takes:
/// eighteen for each full block, and for what is left over, if anything, its
/// own length and two.
#[verifier::opaque]
pub open spec fn body_size(user_len: nat) -> nat {
    let full = user_len / 16;
    let rest = user_len % 16;
    if rest == 0 {
        full * 18
    } else {
        full * 18 + rest + 2
    }
}

/// Data bytes in the first block of a body of `body_len` bytes.
pub open spec fn block_data_len(body_len: nat) -> nat {
    if body_len >= 18 {
        16
    } else if body_len >= 2 {
        (body_len - 2) as nat
    } else {
        0
    }
}

/// True when a body cannot be cut into blocks: it ends one byte into a block,
/// where no checksum fits.
#[verifier::opaque]
pub open spec fn body_is_ragged(body_len: nat) -> bool {
    body_len % 18 == 1
}

/// True when every block of the body, from left to right, is followed by the
/// checksum of its data bytes.
pub open spec fn body_crc_ok(body: Seq<u8>) -> bool
    decreases body.len(),
{
    if body.len() == 0 {
        true
    } else if body.len() < 2 {
        false
    } else {
        let n = block_data_len(body.len()) as int;
        &&& crc16(body.take(n)) == spec_read_u16(body[n], body[n + 1])
        &&& body_crc_ok(body.skip(n + 2))
    }
}

/// The data bytes of all blocks of the body, in order, without the checksums
/// between them.
pub open spec fn user_data(body: Seq<u8>) -> Seq<u8>
    decreases body.len(),
{
    if body.len() < 2 {
        Seq::empty()
    } else {
        let n = block_data_len(body.len()) as int;
        body.take(n) + user_data(body.skip(n + 2))
    }
}

/// True when the last two bytes of a header are the checksum of its first
/// eight.
pub open spec fn header_crc_ok(header: Seq<u8>) -> bool {
    crc16(header.take(8)) == spec_read_u16(header[8], header[9])
}

/// The header value that the ten bytes of a header spell.
pub open spec fn header_fields(header: Seq<u8>) -> Header {
    Header {
        ctrl: Ctrl::spec_from(header[3]),
        dest: spec_read_u16(header[4], header[5]),
        src: spec_read_u16(header[6], header[7]),
    }
}

/// The size of a body, block by block: nothing for no data, the data and a
/// checksum for less than a full block, and eighteen bytes more than for
/// sixteen bytes less otherwise.
pub proof fn lemma_body_size_by_blocks(user_len: nat)
    ensures
        body_size(user_len) == (if user_len == 0 {
            0
        } else if user_len < 16 {
            user_len + 2
        } else {
            18 + body_size((user_len - 16) as nat)
        }),
{
    reveal(body_size);
    if user_len >= 16 {
        let less = (user_len - 16) as nat;
        assert(user_len / 16 == less / 16 + 1 && user_len % 16 == less % 16);
    }
}

/// Whether a body is ragged, block by block: as what is left behind a full
/// block is, and under a full block if it is one byte.
pub proof fn lemma_ragged_by_blocks(body_len: nat)
    ensures
        body_is_ragged(body_len) == (if body_len < 18 {
            body_len == 1
        } else {
            body_is_ragged((body_len - 18) as nat)
        }),
{
    reveal(body_is_ragged);
    if body_len >= 18 {
        let less = (body_len - 18) as nat;
        assert(body_len % 18 == less % 18);
    }
}

/// A body is at least as long as its data and at most an eighth longer and
/// two bytes, the longest body fits the space that a decoder sets aside for
/// it, and no body is ragged.
pub proof fn lemma_body_size_bounds(user_len: nat)
    ensures
        user_len <= body_size(user_len),
        8 * body_size(user_len) <= 9 * user_len + 16,
        user_len > 0 ==> body_size(user_len) >= 3,
        user_len <= MAX_USER_DATA ==> body_size(user_len) <= MAX_BODY_SIZE,
        !body_is_ragged(body_size(user_len)),
        body_size(user_len) == 0 <==> user_len == 0,
    decreases user_len,
{
    lemma_body_size_by_blocks(user_len);
    lemma_ragged_by_blocks(body_size(user_len));
    if user_len >= 16 {
        lemma_body_size_bounds((user_len - 16) as nat);
    }
    if user_len <= MAX_USER_DATA {
        lemma_longest_body(user_len);
    }
}

/// The longest body: that of fifteen full blocks and one of ten bytes.
proof fn lemma_longest_body(user_len: nat)
    requires
        user_len <= MAX_USER_DATA,
    ensures
        body_size(user_len) <= MAX_BODY_SIZE,
{
    reveal(body_size);
    let full = user_len / 16;
    let rest = user_len % 16;
    assert(user_len == 16 * full + rest);
    assert(full <= 15);
    assert(full == 15 ==> rest <= 10);
}

/// Behind the first block of a body that is not ragged comes a body that is
/// not ragged, and the first block has room for its checksum.
pub proof fn lemma_first_block(body_len: nat)
    requires
        body_len > 0,
        !body_is_ragged(body_len),
    ensures
        body_len >= block_data_len(body_len) + 2,
        !body_is_ragged((body_len - block_data_len(body_len) - 2) as nat),
{
    lemma_ragged_by_blocks(body_len);
    lemma_ragged_by_blocks(0);
}

/// The first block of what is left of a body from `pos` on, seen from the
/// whole body: where its data and its checksum stand, and what the check
/// and the user data of what is left come to by it.
pub proof fn lemma_block_at(body: Seq<u8>, pos: int)
    requires
        0 <= pos < body.len(),
        !body_is_ragged((body.len() - pos) as nat),
    ensures
        ({
            let left = body.skip(pos);
            let n = block_data_len(left.len()) as int;
            let block = body.subrange(pos, pos + n);
            let behind = body.skip(pos + n + 2);
            &&& pos + n + 2 <= body.len()
            &&& !body_is_ragged(behind.len())
            &&& body_crc_ok(left) == (crc16(block) == spec_read_u16(
                body[pos + n],
                body[pos + n + 1],
            ) && body_crc_ok(behind))
            &&& user_data(left) == block + user_data(behind)
        }),
{
    let left = body.skip(pos);
    let n = block_data_len(left.len()) as int;
    lemma_first_block(left.len());
    assert(left.take(n) == body.subrange(pos, pos + n));
    assert(left.skip(n + 2) == body.skip(pos + n + 2));
}

/// A body of the size for `user_len` bytes of user data holds that many.
pub proof fn lemma_user_data_len(body: Seq<u8>, user_len: nat)
    requires
        body.len() == body_size(user_len),
    ensures
        user_data(body).len() == user_len,
    decreases body.len(),
{
    lemma_body_size_by_blocks(user_len);
    if body.len() >= 2 {
        let n = block_data_len(body.len()) as int;
        if user_len >= 16 {
            lemma_body_size_bounds((user_len - 16) as nat);
        } else {
            lemma_body_size_by_blocks(0);
        }
        lemma_user_data_len(body.skip(n + 2), (user_len - n) as nat);
    }
}

/// Where each byte of the user data stands in the body: two places further
/// on for each full block before it.
pub proof fn lemma_user_data_index(body: Seq<u8>, k: int)
    requires
        !body_is_ragged(body.len()),
        0 <= k < user_data(body).len(),
    ensures
        k + 2 * (k / 16) < body.len(),
        user_data(body)[k] == body[k + 2 * (k / 16)],
    decreases body.len(),
{
    let n = block_data_len(body.len()) as int;
    let rest = body.skip(n + 2);
    lemma_first_block(body.len());
    if k >= n {
        assert(user_data(body)[k] == user_data(rest)[k - n]);
        lemma_user_data_index(rest, k - n);
    }
}

/// The two bytes that spell `value`, least significant byte first.
pub open spec fn spec_u16_bytes(value: u16) -> Seq<u8> {
    seq![(value % 256) as u8, (value / 256) as u8]
}

/// `data` with its checksum behind it.
pub open spec fn with_crc(data: Seq<u8>) -> Seq<u8> {
    data + spec_u16_bytes(crc16(data))
}

/// The body that carries `data`: blocks of sixteen bytes, and one shorter
/// block for what is left over, each with its checksum behind it.
pub open spec fn encode_body(data: Seq<u8>) -> Seq<u8>
    decreases data.len(),
{
    if data.len() == 0 {
        Seq::empty()
    } else {
        let n = first_block_of(data.len()) as int;
        with_crc(data.take(n)) + encode_body(data.skip(n))
    }
}

/// The header of a frame with `user_len` bytes of user data.
pub open spec fn encode_header(user_len: nat, ctrl: u8, dest: u16, src: u16) -> Seq<u8> {
    with_crc(
        seq![SYNC1, SYNC2, (MIN_LENGTH + user_len) as u8, ctrl] + spec_u16_bytes(dest)
            + spec_u16_bytes(src),
    )
}

/// The frame that carries `data` under the given control byte and
/// addresses.
pub open spec fn encode_frame(ctrl: u8, dest: u16, src: u16, data: Seq<u8>) -> Seq<u8> {
    encode_header(data.len(), ctrl, dest, src) + encode_body(data)
}

/// Two bytes spell the number that they were made from.
pub proof fn lemma_u16_bytes(value: u16)
    ensures
        spec_u16_bytes(value).len() == 2,
        spec_read_u16(spec_u16_bytes(value)[0], spec_u16_bytes(value)[1]) == value,
{
}

/// Data bytes in the first block of the body made for `data_len` bytes.
pub open spec fn first_block_of(data_len: nat) -> nat {
    if data_len < 16 {
        data_len
    } else {
        16
    }
}

/// The body for some data is its first block, the two bytes of a checksum,
/// and the body for the data behind the first block.
proof fn lemma_body_size_by_first_block(data_len: nat)
    requires
        data_len > 0,
    ensures
        body_size(data_len) == first_block_of(data_len) + 2 + body_size(
            (data_len - first_block_of(data_len)) as nat,
        ),
        block_data_len(body_size(data_len)) == first_block_of(data_len),
{
    lemma_body_size_by_blocks(data_len);
    lemma_body_size_by_blocks(0);
}

/// The body made for `data` has the size that goes with the length of
/// `data`, every checksum in it matches, and its user data is `data`.
pub proof fn lemma_encode_body(data: Seq<u8>)
    ensures
        encode_body(data).len() == body_size(data.len()),
        body_crc_ok(encode_body(data)),
        user_data(encode_body(data)) == data,
    decreases data.len(),
{
    lemma_body_size_by_blocks(0);
    if data.len() > 0 {
        let n = first_block_of(data.len()) as int;
        let block = data.take(n);
        let rest = data.skip(n);
        let body = encode_body(data);
        let crc = spec_u16_bytes(crc16(block));
        lemma_encode_body(rest);
        lemma_u16_bytes(crc16(block));
        lemma_body_size_by_first_block(data.len());
        assert(body == (block + crc) + encode_body(rest));
        assert(body.len() == body_size(data.len()));
        assert(body.take(n) == block);
        assert(body[n] == crc[0] && body[n + 1] == crc[1]);
        assert(body.skip(n + 2) == encode_body(rest));
        assert(block + rest == data);
    }
}

/// The checksums of a body catch every change of one byte, be it a byte
/// of data or a byte of a checksum.
pub proof fn lemma_changed_body_is_caught(body: Seq<u8>, changed: Seq<u8>, at: int)
    requires
        body_crc_ok(body),
        changed.len() == body.len(),
        0 <= at < body.len(),
        changed[at] != body[at],
        forall|i: int| 0 <= i < body.len() && i != at ==> changed[i] == body[i],
    ensures
        !body_crc_ok(changed),
    decreases body.len(),
{
    let n = block_data_len(body.len()) as int;
    if at < n {
        lemma_crc_detects_changed_byte(body.take(n), changed.take(n), at);
    } else if at < n + 2 {
        assert(changed.take(n) == body.take(n));
    } else {
        lemma_changed_body_is_caught(body.skip(n + 2), changed.skip(n + 2), at - (n + 2));
    }
}

/// The checksums of a body follow from its data: two bodies of one length
/// that carry the same user data and both pass the check are the same. So a
/// body that passes the check fails it once any of its checksums is changed
/// and its data is not.
pub proof fn lemma_checksums_follow_data(body: Seq<u8>, other: Seq<u8>)
    requires
        body.len() == other.len(),
        body_crc_ok(body),
        body_crc_ok(other),
        user_data(body) == user_data(other),
    ensures
        body == other,
    decreases body.len(),
{
    if body.len() >= 2 {
        let n = block_data_len(body.len()) as int;
        let rest = body.skip(n + 2);
        let other_rest = other.skip(n + 2);
        assert(body.take(n) == user_data(body).take(n));
        assert(other.take(n) == user_data(other).take(n));
        assert(user_data(rest) == user_data(body).skip(n));
        assert(user_data(other_rest) == user_data(other).skip(n));
        lemma_checksums_follow_data(rest, other_rest);
        lemma_read_u16_injective(body[n], body[n + 1], other[n], other[n + 1]);
        assert forall|i: int| 0 <= i < body.len() implies body[i] == other[i] by {
            if i < n {
                assert(body[i] == body.take(n)[i]);
                assert(other[i] == other.take(n)[i]);
            } else if i >= n + 2 {
                assert(body[i] == rest[i - (n + 2)]);
                assert(other[i] == other_rest[i - (n + 2)]);
            }
        }
    }
}

/// Two bytes spell one number only.
pub proof fn lemma_read_u16_injective(lo: u8, hi: u8, other_lo: u8, other_hi: u8)
    requires
        spec_read_u16(lo, hi) == spec_read_u16(other_lo, other_hi),
    ensures
        lo == other_lo,
        hi == other_hi,
{
}

} // verus!
