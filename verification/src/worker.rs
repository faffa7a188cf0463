//! The reader of one connection: what it makes of each read.
//!
//! The reader owns the socket. After every read it asks [`on_read`] what to
//! do: which event, if any, to hand to the relay, and whether to stop.

use crate::command::{parse_command, Command, CommandView};
use crate::server::model::EventView;
use crate::server::Event;
use crate::text::{decode_lossy, lossy_text, trim, trimmed};
use vstd::prelude::*;

verus! {

/// The most bytes taken by one read. What one read gives is one command.
pub const MSGSIZE: usize = 1024;

/// Why a read from a connection failed.
#[derive(Debug, Clone, Copy, PartialEq, Eq, Structural)]
pub enum ReadError {
    /// The read would have had to wait, and was asked not to.
    WouldBlock,
    /// The read was interrupted before it took a byte.
    Interrupted,
    /// Any other failure.
    Other,
}

impl ReadError {
    /// Whether the read can be tried again: it would have blocked or was
    /// interrupted.
    pub open spec fn is_retryable(self) -> bool {
        self == ReadError::WouldBlock || self == ReadError::Interrupted
    }
}

/// What a read from a connection gave.
#[derive(Debug, Clone, PartialEq, Eq)]
pub enum Reading {
    /// The peer closed the connection: the read returned no byte.
    Closed,
    /// The bytes that were read, at least one.
    Bytes(Vec<u8>),
    /// The read failed.
    Failed(ReadError),
}

/// The mathematical value of a [`Reading`].
pub enum ReadingView {
    Closed,
    Bytes(Seq<u8>),
    Failed(ReadError),
}

impl View for Reading {
    type V = ReadingView;

    open spec fn view(&self) -> ReadingView {
        match self {
            Reading::Closed => ReadingView::Closed,
            Reading::Bytes(bytes) => ReadingView::Bytes(bytes@),
            Reading::Failed(error) => ReadingView::Failed(*error),
        }
    }
}

/// What the reader does after a read.
#[derive(Debug, Clone, PartialEq, Eq)]
pub struct Next {
    /// The event to hand to the relay, if any.
    pub event: Option<Event>,
    /// Whether the reader stops reading and closes the connection.
    pub stop: bool,
}

/// The event that stands for text read from the connection `from`: the
/// command that the text spells, and the text without the whitespace around it.
pub open spec fn event_of_text(from: u64, text: Seq<char>) -> EventView {
    EventView { from, command: parse_command(text), raw: trimmed(text) }
}

/// The event that a reader makes up when its connection has ended: a QUIT.
pub open spec fn quit_event(from: u64) -> EventView {
    EventView { from, command: CommandView::Quit, raw: "QUIT"@ }
}

/// What the reader of the connection `from` does after a read, as a pair of
/// the event it hands on and whether it stops. The end of the stream and a
/// read that failed for good both end the reader with a QUIT in the client's
/// name; bytes are decoded leniently and read as one command; a failed read
/// that can be tried again changes nothing.
pub open spec fn next_of(from: u64, reading: ReadingView) -> (Option<EventView>, bool) {
    match reading {
        ReadingView::Closed => (Some(quit_event(from)), true),
        ReadingView::Bytes(bytes) => (Some(event_of_text(from, lossy_text(bytes))), false),
        ReadingView::Failed(error) => if error.is_retryable() {
            (None, false)
        } else {
            (Some(quit_event(from)), true)
        },
    }
}

/// Makes the event for text read from the connection `from`.
pub fn read_event(from: u64, text: &str) -> (event: Event)
    ensures
        event@ == event_of_text(from, text@),
{
    Event { from, command: Command::new(text), raw: trim(text) }
}

/// Makes the QUIT that ends a connection.
pub fn make_quit(from: u64) -> (event: Event)
    ensures
        event@ == quit_event(from),
{
    Event { from, command: Command::Quit, raw: String::from_str("QUIT") }
}

/// Decides what the reader of the connection `from` does after a read.
pub fn on_read(from: u64, reading: Reading) -> (next: Next)
    ensures
        next.stop == next_of(from, reading@).1,
        match next.event {
            Some(event) => next_of(from, reading@).0 == Some(event@),
            None => next_of(from, reading@).0 is None,
        },
{
    match reading {
        Reading::Closed => Next { event: Some(make_quit(from)), stop: true },
        Reading::Bytes(bytes) => {
            let text: String = decode_lossy(bytes.as_slice());
            Next { event: Some(read_event(from, text.as_str())), stop: false }
        },
        Reading::Failed(ReadError::WouldBlock) => Next { event: None, stop: false },
        Reading::Failed(ReadError::Interrupted) => Next { event: None, stop: false },
        Reading::Failed(ReadError::Other) => Next { event: Some(make_quit(from)), stop: true },
    }
}

} // verus!
