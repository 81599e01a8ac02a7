//! The per-connection request loop as a state machine: the caller performs each
//! action on the stream and reports back what happened.
use vstd::prelude::*;
use crate::frame::{frame_bytes, frame_length};
use crate::protocol::{spec_response, process_message};
use crate::wire::u32_at;

verus! {

/// Where a connection stands.
#[derive(Debug, Clone, Copy, PartialEq, Eq, Structural)]
pub enum ConnState {
    /// Waiting for the 4-byte length of the next frame.
    AwaitingFrame,
    /// Reading, answering and writing one frame.
    ProcessingFrame,
    /// Torn down; no further frame is processed.
    Closed,
}

/// What the stream reported.
#[derive(Debug, Clone, PartialEq, Eq)]
pub enum Event {
    /// The bytes of a length prefix were read.
    LengthRead(Vec<u8>),
    /// The frame body was read.
    BodyRead(Vec<u8>),
    /// The response was written in full.
    Written,
    /// A read or write failed, or the peer closed the stream.
    IoFailed,
}

/// What to do next on the stream.
#[derive(Debug, Clone, PartialEq, Eq)]
pub enum Action {
    /// Read a 4-byte length prefix.
    ReadLength,
    /// Read a frame body of this many bytes.
    ReadBody(u32),
    /// Write these bytes.
    Write(Vec<u8>),
    /// Close the connection.
    Close,
}

/// One connection's loop state.
pub struct Connection {
    pub state: ConnState,
}

impl Connection {
    /// A fresh connection, about to read its first frame.
    pub fn new() -> (r: (Connection, Action))
        ensures
            r.0.state == ConnState::AwaitingFrame,
            r.1 == Action::ReadLength,
    {
        (Connection { state: ConnState::AwaitingFrame }, Action::ReadLength)
    }

    /// Takes the next event and returns the next action.
    pub fn step(&mut self, event: Event) -> (a: Action)
        ensures
            match (old(self).state, event) {
                (ConnState::AwaitingFrame, Event::LengthRead(p)) => if p@.len() == 4 {
                    final(self).state == ConnState::ProcessingFrame && a == Action::ReadBody(u32_at(p@, 0))
                } else {
                    final(self).state == ConnState::Closed && a == Action::Close
                },
                (ConnState::ProcessingFrame, Event::BodyRead(b)) => match spec_response(b@) {
                    Ok(body) => final(self).state == ConnState::ProcessingFrame
                        && (a matches Action::Write(w) && w@ == frame_bytes(body)),
                    Err(_) => final(self).state == ConnState::Closed && a == Action::Close,
                },
                (ConnState::ProcessingFrame, Event::Written) => final(self).state == ConnState::AwaitingFrame
                    && a == Action::ReadLength,
                _ => final(self).state == ConnState::Closed && a == Action::Close,
            },
    {
        match (self.state, event) {
            (ConnState::AwaitingFrame, Event::LengthRead(p)) => match frame_length(p.as_slice()) {
                Some(n) => {
                    self.state = ConnState::ProcessingFrame;
                    Action::ReadBody(n)
                },
                None => {
                    self.state = ConnState::Closed;
                    Action::Close
                },
            },
            (ConnState::ProcessingFrame, Event::BodyRead(b)) => match process_message(b.as_slice()) {
                Ok(w) => Action::Write(w),
                Err(_) => {
                    self.state = ConnState::Closed;
                    Action::Close
                },
            },
            (ConnState::ProcessingFrame, Event::Written) => {
                self.state = ConnState::AwaitingFrame;
                Action::ReadLength
            },
            _ => {
                self.state = ConnState::Closed;
                Action::Close
            },
        }
    }
}

}
