//! The data-link layer of DNP3: a decoder that turns a stream of bytes, as
//! it comes in from a serial line or a socket, into link frames, and the
//! values that the frames carry.
//!
//! The decoder is `link::Parser`. What it does is said by a state machine on
//! byte sequences, `link::model`, and every function of the decoder is
//! proved to do what the state machine says. The laws of the state machine
//! stand in `link::laws` and `link::chunking`.

pub mod link;
