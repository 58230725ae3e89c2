//! The control byte and the header of a link frame.

use vstd::prelude::*;
use crate::link::function::Function;

verus! {

/// Direction bit: set when the frame comes from the master station.
pub const MASK_DIR: u8 = 0x80;

/// Primary bit: set on frames that start a transaction.
pub const MASK_PRM: u8 = 0x40;

/// Frame count bit.
pub const MASK_FCB: u8 = 0x20;

/// Frame count valid bit (data flow control on secondary frames).
pub const MASK_FCV: u8 = 0x10;

/// The four bits of the function code proper.
pub const MASK_FUNC: u8 = 0x0F;

/// The function code together with the primary bit that qualifies it.
pub const MASK_FUNC_OR_PRM: u8 = MASK_PRM | MASK_FUNC;

/// The fields of a control byte.
#[derive(Clone, Copy, PartialEq, Eq, Debug, Structural)]
pub struct Ctrl {
    pub func: Function,
    pub master: bool,
    pub fcb: bool,
    pub fcvdfc: bool,
}

impl Ctrl {
    /// The fields that a control byte holds: the function named by the
    /// primary bit and the low four bits, and one flag for each of the three
    /// remaining bits.
    pub open spec fn spec_from(byte: u8) -> Ctrl {
        Ctrl {
            func: Function::spec_from(byte & MASK_FUNC_OR_PRM),
            master: byte & MASK_DIR != 0,
            fcb: byte & MASK_FCB != 0,
            fcvdfc: byte & MASK_FCV != 0,
        }
    }

    /// The fields of a control byte in numbers: the direction bit is set in
    /// the upper half of the bytes, the frame count bit in the upper half of
    /// each run of sixty-four, the frame count valid bit in the upper half
    /// of each run of thirty-two, and the function is named by what is left
    /// when those three bits are taken away.
    pub proof fn lemma_fields_in_numbers(byte: u8)
        ensures
            Ctrl::spec_from(byte).master == (byte >= 128),
            Ctrl::spec_from(byte).fcb == (byte % 64 >= 32),
            Ctrl::spec_from(byte).fcvdfc == (byte % 32 >= 16),
            Ctrl::spec_from(byte).func == Function::spec_from(
                (byte / 64 % 2 * 64 + byte % 16) as u8,
            ),
    {
        assert((byte & MASK_DIR != 0) == (byte >= 128)) by (bit_vector);
        assert((byte & MASK_FCB != 0) == (byte % 64 >= 32)) by (bit_vector);
        assert((byte & MASK_FCV != 0) == (byte % 32 >= 16)) by (bit_vector);
        assert(byte & MASK_FUNC_OR_PRM == (byte / 64 % 2 * 64 + byte % 16) as u8) by (bit_vector);
    }

    /// Decodes a control byte. Every byte decodes.
    pub fn from(byte: u8) -> (ctrl: Ctrl)
        ensures
            ctrl == Ctrl::spec_from(byte),
            ctrl.master == (byte >= 128),
            ctrl.fcb == (byte % 64 >= 32),
            ctrl.fcvdfc == (byte % 32 >= 16),
            ctrl.func == Function::spec_from((byte / 64 % 2 * 64 + byte % 16) as u8),
    {
        proof {
            Ctrl::lemma_fields_in_numbers(byte);
        }
        Ctrl {
            func: Function::from(byte & MASK_FUNC_OR_PRM),
            master: (byte & MASK_DIR) != 0,
            fcb: (byte & MASK_FCB) != 0,
            fcvdfc: (byte & MASK_FCV) != 0,
        }
    }
}

/// The header of a link frame: its control fields and the two station
/// addresses.
#[derive(Clone, Copy, PartialEq, Eq, Debug, Structural)]
pub struct Header {
    pub ctrl: Ctrl,
    pub dest: u16,
    pub src: u16,
}

impl Header {
    /// A header of the given fields.
    pub fn from(ctrl: Ctrl, dest: u16, src: u16) -> (header: Header)
        ensures
            header == (Header { ctrl, dest, src }),
    {
        Header { ctrl: ctrl, dest: dest, src: src }
    }

    /// The header of all zeroes: control byte 0, which is an acknowledgement
    /// with no flag set, sent to station 0 by station 0.
    pub fn default() -> (header: Header)
        ensures
            header == (Header { ctrl: Ctrl::spec_from(0), dest: 0, src: 0 }),
            header.ctrl == (Ctrl {
                func: Function::SecAck,
                master: false,
                fcb: false,
                fcvdfc: false,
            }),
    {
        assert(0u8 & MASK_FUNC_OR_PRM == 0 && 0u8 & MASK_DIR == 0 && 0u8 & MASK_FCB == 0 && 0u8
            & MASK_FCV == 0) by (bit_vector);
        Header { ctrl: Ctrl::from(0), dest: 0, src: 0 }
    }
}

} // verus!
