//! Link frames: function codes, headers, checksums and the streaming
//! decoder.
//!
//! - `function`, `header`: the values that a frame carries.
//! - `crc`: the checksum.
//! - `frame`: the wire format, as functions on byte sequences.
//! - `model`: the decoder as a state machine.
//! - `parser`: the decoder.
//! - `laws`: what the decoder makes of frames.
//! - `chunking`: why the cuts between calls do not matter.
//! - `mock`: handlers to try a decoder with.

pub mod chunking;
pub mod crc;
pub mod frame;
pub mod function;
pub mod header;
pub mod laws;
pub mod mock;
pub mod model;
pub mod parser;

pub use self::crc::calc_crc;
pub use self::function::Function;
pub use self::header::{Ctrl, Header};
pub use self::parser::{ParseError, ParseHandler, Parser};
