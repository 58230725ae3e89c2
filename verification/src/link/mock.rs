//! Two handlers to try a decoder with: one that is told beforehand what to
//! await, and one that keeps what it is told.

use vstd::prelude::*;
use vstd::slice::slice_to_vec;
use crate::link::header::Header;
use crate::link::model::FrameEvent;
use crate::link::parser::{ParseError, ParseHandler};

verus! {

/// One callback that a `MockHandler` awaits.
#[derive(Clone, Copy, PartialEq, Eq, Debug, Structural)]
pub enum Expect {
    /// This error.
    Error(ParseError),
    /// A frame with this header and this many bytes of user data.
    Frame(Header, usize),
}

impl Expect {
    /// True when `event` is the callback awaited.
    pub open spec fn met_by(self, event: FrameEvent) -> bool {
        match self {
            Expect::Error(error) => event == FrameEvent::Error(error),
            Expect::Frame(header, size) => event matches FrameEvent::Frame(h, payload) && h
                == header && payload.len() == size,
        }
    }
}

/// A handler that holds a stack of awaited callbacks. Each callback takes
/// the top of the stack off; one that finds the stack empty, or something
/// else on top, marks the handler as failed.
pub struct MockHandler {
    /// The callbacks awaited, the next one last.
    pub expects: Vec<Expect>,
    /// True once a callback came that was not awaited.
    pub failed: bool,
    /// Everything told so far.
    pub told: Ghost<Seq<FrameEvent>>,
}

/// The stack and the mark of a `MockHandler` after `event`.
pub open spec fn after_callback(expects: Seq<Expect>, failed: bool, event: FrameEvent) -> (
    Seq<Expect>,
    bool,
) {
    if expects.len() == 0 {
        (expects, true)
    } else {
        (expects.drop_last(), failed || !expects.last().met_by(event))
    }
}

impl MockHandler {
    /// A handler that awaits nothing and has not failed.
    pub fn new() -> (handler: MockHandler)
        ensures
            handler.expects@ == Seq::<Expect>::empty(),
            !handler.failed,
            handler.log() == Seq::<FrameEvent>::empty(),
    {
        MockHandler { expects: Vec::new(), failed: false, told: Ghost(Seq::empty()) }
    }
}

impl ParseHandler for MockHandler {
    open spec fn log(&self) -> Seq<FrameEvent> {
        self.told@
    }

    fn on_frame(&mut self, header: &Header, slice: &[u8])
        ensures
            (final(self).expects@, final(self).failed) == after_callback(
                old(self).expects@,
                old(self).failed,
                FrameEvent::Frame(*header, slice@),
            ),
    {
        let met = match self.expects.pop() {
            Some(Expect::Frame(hdr, size)) => hdr == *header && size == slice.len(),
            _ => false,
        };
        if !met {
            self.failed = true;
        }
        self.told = Ghost(self.told@.push(FrameEvent::Frame(*header, slice@)));
    }

    fn on_error(&mut self, error: ParseError)
        ensures
            (final(self).expects@, final(self).failed) == after_callback(
                old(self).expects@,
                old(self).failed,
                FrameEvent::Error(error),
            ),
    {
        let met = match self.expects.pop() {
            Some(Expect::Error(err)) => err == error,
            _ => false,
        };
        if !met {
            self.failed = true;
        }
        self.told = Ghost(self.told@.push(FrameEvent::Error(error)));
    }
}

/// What a `Recorder` keeps of one callback.
#[derive(PartialEq, Eq, Debug)]
pub enum Received {
    /// A frame: its header and a copy of its user data.
    Frame(Header, Vec<u8>),
    /// An error.
    Error(ParseError),
}

impl View for Received {
    type V = FrameEvent;

    open spec fn view(&self) -> FrameEvent {
        match *self {
            Received::Frame(header, payload) => FrameEvent::Frame(header, payload@),
            Received::Error(error) => FrameEvent::Error(error),
        }
    }
}

/// A handler that keeps everything it is told, in order, so that it can be
/// read when a call has returned.
pub struct Recorder {
    pub received: Vec<Received>,
}

impl Recorder {
    /// A handler that has been told nothing.
    pub fn new() -> (recorder: Recorder)
        ensures
            recorder.received@ == Seq::<Received>::empty(),
            recorder.log() == Seq::<FrameEvent>::empty(),
    {
        Recorder { received: Vec::new() }
    }
}

impl ParseHandler for Recorder {
    open spec fn log(&self) -> Seq<FrameEvent> {
        self.received@.map_values(|r: Received| r@)
    }

    fn on_frame(&mut self, header: &Header, slice: &[u8]) {
        self.received.push(Received::Frame(*header, slice_to_vec(slice)));
        assert(self.log() == old(self).log().push(FrameEvent::Frame(*header, slice@)));
    }

    fn on_error(&mut self, error: ParseError) {
        self.received.push(Received::Error(error));
        assert(self.log() == old(self).log().push(FrameEvent::Error(error)));
    }
}

} // verus!
