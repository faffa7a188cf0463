//! A line-oriented chat relay, verified.
//!
//! Clients talk to the relay in lines of text. The relay keeps a registry of
//! nicknames and a table of rooms, and passes what is said in a room on to the
//! members of the room. A client keeps what it receives in one history per
//! room.
//!
//! - [`text`] and [`words`]: whitespace, words, lines and decimal numbers.
//! - [`command`]: the commands a client sends, and how a line is read as one.
//! - [`message`]: the lines the relay sends, and how a client reads them.
//! - [`server`]: the relay's state and what each event does to it, with the
//!   invariant that every reachable state meets.
//! - [`worker`]: what the reader of a connection makes of each read.
//! - [`client`]: the client's table of rooms and histories.
//! - [`lookup`]: searching a sequence.
//!
//! Nothing here touches a socket or a clock. The relay is handed events and
//! the time, and hands back what to write and what to close; the client is
//! handed the bytes that were read.

pub mod client;
pub mod command;
pub mod lookup;
pub mod message;
pub mod server;
pub mod text;
pub mod words;
pub mod worker;
