//! Link-layer function codes.

use vstd::prelude::*;

verus! {

/// The function code of a link frame, as carried in the control byte.
///
/// The primary/secondary bit is part of the code, so that the two code spaces
/// do not collide. A byte that names no known function is kept as it came.
#[derive(Clone, Copy, PartialEq, Eq, Debug, Structural)]
pub enum Function {
    PriResetLinkStates,
    PriTestLinkStates,
    PriConfirmedUserData,
    PriUnconfirmedUserData,
    PriRequestLinkStatus,
    SecAck,
    SecNack,
    SecLinkStatus,
    SecNotSupported,
    Unknown(u8),
}

pub const PRI_RESET_LINK_STATES: u8 = 0x40;

pub const PRI_TEST_LINK_STATES: u8 = 0x42;

pub const PRI_CONFIRMED_USER_DATA: u8 = 0x43;

pub const PRI_UNCONFIRMED_USER_DATA: u8 = 0x44;

pub const PRI_REQUEST_LINK_STATUS: u8 = 0x49;

pub const SEC_ACK: u8 = 0x00;

pub const SEC_NACK: u8 = 0x01;

pub const SEC_LINK_STATUS: u8 = 0x0B;

pub const SEC_NOT_SUPPORTED: u8 = 0x0F;

impl Function {
    /// The function that a code byte names.
    pub open spec fn spec_from(byte: u8) -> Function {
        if byte == PRI_RESET_LINK_STATES {
            Function::PriResetLinkStates
        } else if byte == PRI_TEST_LINK_STATES {
            Function::PriTestLinkStates
        } else if byte == PRI_CONFIRMED_USER_DATA {
            Function::PriConfirmedUserData
        } else if byte == PRI_UNCONFIRMED_USER_DATA {
            Function::PriUnconfirmedUserData
        } else if byte == PRI_REQUEST_LINK_STATUS {
            Function::PriRequestLinkStatus
        } else if byte == SEC_ACK {
            Function::SecAck
        } else if byte == SEC_NACK {
            Function::SecNack
        } else if byte == SEC_LINK_STATUS {
            Function::SecLinkStatus
        } else if byte == SEC_NOT_SUPPORTED {
            Function::SecNotSupported
        } else {
            Function::Unknown(byte)
        }
    }

    /// Decodes a code byte. Every byte has a function; one that names no
    /// known function comes back as `Unknown` with the byte in it.
    pub fn from(byte: u8) -> (func: Function)
        ensures
            func == Function::spec_from(byte),
    {
        match byte {
            PRI_RESET_LINK_STATES => Function::PriResetLinkStates,
            PRI_TEST_LINK_STATES => Function::PriTestLinkStates,
            PRI_CONFIRMED_USER_DATA => Function::PriConfirmedUserData,
            PRI_UNCONFIRMED_USER_DATA => Function::PriUnconfirmedUserData,
            PRI_REQUEST_LINK_STATUS => Function::PriRequestLinkStatus,
            SEC_ACK => Function::SecAck,
            SEC_NACK => Function::SecNack,
            SEC_LINK_STATUS => Function::SecLinkStatus,
            SEC_NOT_SUPPORTED => Function::SecNotSupported,
            _ => Function::Unknown(byte),
        }
    }
}

} // verus!
