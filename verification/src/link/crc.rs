//! The CRC-16 of DNP3.
//!
//! The checksum is the remainder of a division by the polynomial `0x3D65`,
//! taken bit by bit with the least significant bit first, from a register
//! that starts at zero, and complemented at the end.

use vstd::prelude::*;

verus! {

/// The generator polynomial `0x3D65`, with its bits reversed.
pub const CRC_POLYNOMIAL: u16 = 0xA6BC;

/// The register after one bit has been shifted out of it.
pub open spec fn crc_shift(reg: u16) -> u16 {
    if reg & 1 == 1 {
        (reg >> 1) ^ CRC_POLYNOMIAL
    } else {
        reg >> 1
    }
}

/// The register after `n` bits have been shifted out of it.
pub open spec fn crc_shift_n(reg: u16, n: nat) -> u16
    decreases n,
{
    if n == 0 {
        reg
    } else {
        crc_shift_n(crc_shift(reg), (n - 1) as nat)
    }
}

/// The register after one more byte of the message has gone into it.
pub open spec fn crc_absorb(reg: u16, byte: u8) -> u16 {
    crc_shift_n(reg ^ (byte as u16), 8)
}

/// The register after a whole message has gone into it.
pub open spec fn crc_register(bytes: Seq<u8>) -> u16
    decreases bytes.len(),
{
    if bytes.len() == 0 {
        0
    } else {
        crc_absorb(crc_register(bytes.drop_last()), bytes.last())
    }
}

/// The checksum of a message: the complement of the final register.
pub open spec fn crc16(bytes: Seq<u8>) -> u16 {
    !crc_register(bytes)
}

/// Computes the checksum of `bytes`.
pub fn calc_crc(bytes: &[u8]) -> (crc: u16)
    ensures
        crc == crc16(bytes@),
{
    let mut reg: u16 = 0;
    let mut i: usize = 0;
    while i < bytes.len()
        invariant
            i <= bytes@.len(),
            reg == crc_register(bytes@.take(i as int)),
        decreases bytes@.len() - i,
    {
        let ghost before = reg;
        reg = reg ^ (bytes[i] as u16);
        let mut bit: u8 = 0;
        while bit < 8
            invariant
                bit <= 8,
                crc_shift_n(reg, (8 - bit) as nat) == crc_absorb(before, bytes@[i as int]),
            decreases 8 - bit,
        {
            reg = if reg & 1 == 1 {
                (reg >> 1) ^ CRC_POLYNOMIAL
            } else {
                reg >> 1
            };
            bit += 1;
        }
        proof {
            let upto = bytes@.take(i + 1);
            assert(upto.drop_last() == bytes@.take(i as int));
            assert(upto.last() == bytes@[i as int]);
        }
        i += 1;
    }
    proof {
        assert(bytes@.take(bytes@.len() as int) == bytes@);
    }
    !reg
}

/// The register after a message and one more byte.
pub proof fn lemma_crc_register_push(bytes: Seq<u8>, byte: u8)
    ensures
        crc_register(bytes.push(byte)) == crc_absorb(crc_register(bytes), byte),
{
    assert(bytes.push(byte).drop_last() == bytes);
}

/// The message by which checksums of this kind are told apart: the digits
/// from 1 to 9, as characters.
pub open spec fn check_string() -> Seq<u8> {
    seq![0x31u8, 0x32u8, 0x33u8, 0x34u8, 0x35u8, 0x36u8, 0x37u8, 0x38u8, 0x39u8]
}

/// The checksum of the check string is `0xEA82`, the value by which the
/// CRC-16 of DNP3 is known.
pub proof fn lemma_crc_check_value()
    ensures
        crc16(check_string()) == 0xEA82,
{
    let none = Seq::<u8>::empty();
    let s1 = none.push(0x31);
    let s2 = s1.push(0x32);
    let s3 = s2.push(0x33);
    let s4 = s3.push(0x34);
    let s5 = s4.push(0x35);
    let s6 = s5.push(0x36);
    let s7 = s6.push(0x37);
    let s8 = s7.push(0x38);
    let s9 = s8.push(0x39);
    lemma_crc_register_push(none, 0x31);
    lemma_crc_register_push(s1, 0x32);
    lemma_crc_register_push(s2, 0x33);
    lemma_crc_register_push(s3, 0x34);
    lemma_crc_register_push(s4, 0x35);
    lemma_crc_register_push(s5, 0x36);
    lemma_crc_register_push(s6, 0x37);
    lemma_crc_register_push(s7, 0x38);
    lemma_crc_register_push(s8, 0x39);
    assert(crc_absorb(0x0000u16, 0x31u8) == 0xAD9Au16) by (bit_vector);
    assert(crc_absorb(0xAD9Au16, 0x32u8) == 0x7037u16) by (bit_vector);
    assert(crc_absorb(0x7037u16, 0x33u8) == 0xD908u16) by (bit_vector);
    assert(crc_absorb(0xD908u16, 0x34u8) == 0xBDECu16) by (bit_vector);
    assert(crc_absorb(0xBDECu16, 0x35u8) == 0x8EE3u16) by (bit_vector);
    assert(crc_absorb(0x8EE3u16, 0x36u8) == 0xA821u16) by (bit_vector);
    assert(crc_absorb(0xA821u16, 0x37u8) == 0x0707u16) by (bit_vector);
    assert(crc_absorb(0x0707u16, 0x38u8) == 0xE7D0u16) by (bit_vector);
    assert(crc_absorb(0xE7D0u16, 0x39u8) == 0x157Du16) by (bit_vector);
    assert(!0x157Du16 == 0xEA82u16) by (bit_vector);
    assert(s9 == check_string());
}

/// Shifting maps different registers to different registers.
pub proof fn lemma_crc_shift_injective(a: u16, b: u16)
    requires
        a != b,
    ensures
        crc_shift(a) != crc_shift(b),
{
    assert(a != b ==> crc_shift(a) != crc_shift(b)) by (bit_vector);
}

/// Any number of shifts maps different registers to different registers.
pub proof fn lemma_crc_shift_n_injective(a: u16, b: u16, n: nat)
    requires
        a != b,
    ensures
        crc_shift_n(a, n) != crc_shift_n(b, n),
    decreases n,
{
    if n > 0 {
        lemma_crc_shift_injective(a, b);
        lemma_crc_shift_n_injective(crc_shift(a), crc_shift(b), (n - 1) as nat);
    }
}

/// Absorbing a byte keeps two registers apart, and sets one register apart
/// from itself when the bytes differ.
pub proof fn lemma_crc_absorb_injective(a: u16, x: u8, b: u16, y: u8)
    requires
        a != b && x == y || a == b && x != y,
    ensures
        crc_absorb(a, x) != crc_absorb(b, y),
{
    let wx = x as u16;
    let wy = y as u16;
    assert(a != b ==> a ^ wx != b ^ wx) by (bit_vector);
    assert(wx != wy ==> a ^ wx != a ^ wy) by (bit_vector);
    lemma_crc_shift_n_injective(a ^ wx, b ^ wy, 8);
}

/// The checksum tells apart two messages of one length that differ in
/// exactly one byte, whatever the difference in that byte is.
pub proof fn lemma_crc_detects_changed_byte(a: Seq<u8>, b: Seq<u8>, at: int)
    requires
        a.len() == b.len(),
        0 <= at < a.len(),
        a[at] != b[at],
        forall|i: int| 0 <= i < a.len() && i != at ==> a[i] == b[i],
    ensures
        crc16(a) != crc16(b),
{
    lemma_registers_differ(a, b, at);
    let ra = crc_register(a);
    let rb = crc_register(b);
    assert(ra != rb ==> !ra != !rb) by (bit_vector);
}

proof fn lemma_registers_differ(a: Seq<u8>, b: Seq<u8>, at: int)
    requires
        a.len() == b.len(),
        0 <= at < a.len(),
        a[at] != b[at],
        forall|i: int| 0 <= i < a.len() && i != at ==> a[i] == b[i],
    ensures
        crc_register(a) != crc_register(b),
    decreases a.len(),
{
    if at == a.len() - 1 {
        assert(a.drop_last() =~= b.drop_last());
        lemma_crc_absorb_injective(
            crc_register(a.drop_last()),
            a.last(),
            crc_register(b.drop_last()),
            b.last(),
        );
    } else {
        lemma_registers_differ(a.drop_last(), b.drop_last(), at);
        lemma_crc_absorb_injective(
            crc_register(a.drop_last()),
            a.last(),
            crc_register(b.drop_last()),
            b.last(),
        );
    }
}

} // verus!
