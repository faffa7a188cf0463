//! The client side of a connection: what the relay sent, routed into one
//! history per room.
//!
//! The caller owns the socket. It hands every chunk of bytes that it reads to
//! [`Server::update`] and shows the rooms and histories that the table then
//! holds.

use crate::command::{is_body, parse_command, Command, CommandView};
use crate::lookup::{
    first_from, first_index, lemma_first_index, lemma_push_no_duplicates, lemma_remove_contains,
};
use crate::message::{
    history_entry, lemma_decimal_is_word, lemma_message_text_read_back, message_line,
    message_text, parse_message, Message, MessageView,
};
use crate::text::{
    decimal, decode_lossy, is_word, join, join_words, lemma_lines_single, lemma_trimmed_closed,
    lemma_words_are_words, lines, lossy_text, split_lines, split_words, trim, trimmed, views,
    words,
};
use crate::words::{lemma_join_is_clean, lemma_words_of_four, lemma_words_spaced};
use vstd::prelude::*;

verus! {

/// The history of one room: what was received for it, oldest first.
#[derive(Debug, Clone, PartialEq, Eq)]
pub struct History {
    pub room: String,
    pub lines: Vec<String>,
}

/// The mathematical value of a [`History`].
pub struct HistoryView {
    pub room: Seq<char>,
    pub lines: Seq<Seq<char>>,
}

impl View for History {
    type V = HistoryView;

    open spec fn view(&self) -> HistoryView {
        HistoryView { room: self.room@, lines: views(self.lines@) }
    }
}

/// The values of a list of histories.
pub open spec fn history_views(rooms: Seq<History>) -> Seq<HistoryView> {
    Seq::new(rooms.len(), |i: int| rooms[i]@)
}

/// The room names of a table of histories.
pub open spec fn history_names(table: Seq<HistoryView>) -> Seq<Seq<char>> {
    Seq::new(table.len(), |i: int| table[i].room)
}

/// The table with which a connection starts: the room `server`, empty.
pub open spec fn initial_table() -> Seq<HistoryView> {
    seq![HistoryView { room: "server"@, lines: Seq::empty() }]
}

/// The history of `room` in `table`, if the table has the room.
pub open spec fn lines_of(table: Seq<HistoryView>, room: Seq<char>) -> Option<Seq<Seq<char>>> {
    match first_index(history_names(table), room) {
        Some(i) => Some(table[i].lines),
        None => None,
    }
}

/// `table` with `entry` at the end of the history of `room`; a room that the
/// table lacks is added at its end.
pub open spec fn appended(table: Seq<HistoryView>, room: Seq<char>, entry: Seq<char>) -> Seq<
    HistoryView,
> {
    match first_index(history_names(table), room) {
        Some(i) => table.update(
            i,
            HistoryView { room: table[i].room, lines: table[i].lines.push(entry) },
        ),
        None => table.push(HistoryView { room, lines: seq![entry] }),
    }
}

/// `table` without the room called `room`.
pub open spec fn without(table: Seq<HistoryView>, room: Seq<char>) -> Seq<HistoryView> {
    match first_index(history_names(table), room) {
        Some(i) => table.remove(i),
        None => table,
    }
}

/// The command that a received line carries in its body: what the words after
/// the fourth spell. A line of fewer than five words carries none.
pub open spec fn carried_command(line: Seq<char>) -> Option<CommandView> {
    if words(line).len() < 5 {
        None
    } else {
        Some(parse_command(join(words(line).skip(4))))
    }
}

/// What a received line does to the rooms of the table besides being kept: a
/// line that carries `LEAVE room` drops that room, one that carries `QUIT`
/// drops all rooms.
pub open spec fn reacted(table: Seq<HistoryView>, line: Seq<char>) -> Seq<HistoryView> {
    match carried_command(line) {
        Some(CommandView::Leave(room)) => without(table, room),
        Some(CommandView::Quit) => Seq::empty(),
        _ => table,
    }
}

/// The table after one received line. A line that is a message is kept, as
/// its history entry, in the room that the message names; any other line is
/// kept as it stands in the room `server`. Then the table reacts to the line.
pub open spec fn received_line(table: Seq<HistoryView>, line: Seq<char>) -> Seq<HistoryView> {
    let kept = match parse_message(line) {
        Some(m) => appended(table, m.room, history_entry(m)),
        None => appended(table, "server"@, line),
    };
    reacted(kept, line)
}

/// The table after the first `upto` of `pieces` were received in order.
pub open spec fn received_lines(table: Seq<HistoryView>, pieces: Seq<Seq<char>>, upto: int) -> Seq<
    HistoryView,
>
    decreases upto,
{
    if upto <= 0 {
        table
    } else {
        received_line(received_lines(table, pieces, upto - 1), pieces[upto - 1])
    }
}

/// The table after a chunk of text was received: the text is trimmed and
/// split at its line feeds, and the pieces are received in order.
pub open spec fn received(table: Seq<HistoryView>, text: Seq<char>) -> Seq<HistoryView> {
    received_lines(table, lines(trimmed(text)), lines(trimmed(text)).len() as int)
}

/// No two rooms of the table have the same name.
pub open spec fn rooms_unique(table: Seq<HistoryView>) -> bool {
    history_names(table).no_duplicates()
}

/// The rooms and histories that a client keeps of its connection to a relay.
#[derive(Debug, Clone, PartialEq, Eq)]
pub struct Server {
    rooms: Vec<History>,
}

impl View for Server {
    type V = Seq<HistoryView>;

    closed spec fn view(&self) -> Seq<HistoryView> {
        history_views(self.rooms@)
    }
}

/// The index of the first history of the room called `name`.
fn find_history(rooms: &Vec<History>, name: &String) -> (r: Option<usize>)
    ensures
        match r {
            Some(i) => first_index(history_names(history_views(rooms@)), name@) == Some(i as int),
            None => first_index(history_names(history_views(rooms@)), name@) is None,
        },
{
    let ghost names = history_names(history_views(rooms@));
    let mut i: usize = 0;
    while i < rooms.len()
        invariant
            0 <= i <= rooms.len(),
            names == history_names(history_views(rooms@)),
            first_from(names, name@, 0) == first_from(names, name@, i as int),
        decreases rooms.len() - i,
    {
        if rooms[i].room == *name {
            return Some(i);
        }
        i = i + 1;
    }
    None
}

/// A copy of a list of strings.
fn copy_lines(lines: &Vec<String>) -> (copy: Vec<String>)
    ensures
        views(copy@) == views(lines@),
{
    let mut copy: Vec<String> = Vec::new();
    let mut i: usize = 0;
    while i < lines.len()
        invariant
            0 <= i <= lines.len(),
            copy.len() == i,
            forall|k: int| 0 <= k < i ==> (#[trigger] copy[k])@ == lines[k]@,
        decreases lines.len() - i,
    {
        copy.push(lines[i].clone());
        i = i + 1;
    }
    proof {
        assert(views(copy@) =~= views(lines@));
    }
    copy
}

impl Server {
    /// The table with which a connection starts.
    pub fn new() -> (server: Server)
        ensures
            server@ == initial_table(),
            rooms_unique(server@),
    {
        let mut rooms: Vec<History> = Vec::new();
        let first = History { room: String::from_str("server"), lines: Vec::new() };
        proof {
            assert(first@.lines =~= Seq::<Seq<char>>::empty());
        }
        rooms.push(first);
        let server = Server { rooms };
        proof {
            assert(server@ =~= initial_table());
        }
        server
    }

    /// Puts `entry` at the end of the history of `room`.
    fn append(&mut self, room: String, entry: String)
        ensures
            final(self)@ == appended(old(self)@, room@, entry@),
    {
        match find_history(&self.rooms, &room) {
            Some(i) => {
                self.rooms[i].lines.push(entry);
                proof {
                    assert(views(self.rooms[i as int].lines@) =~= views(
                        old(self).rooms[i as int].lines@,
                    ).push(entry@));
                    assert(self@ =~= old(self)@.update(i as int, self.rooms[i as int]@));
                }
            },
            None => {
                let mut lines: Vec<String> = Vec::new();
                lines.push(entry);
                let history = History { room, lines };
                proof {
                    assert(history@.lines =~= seq![entry@]);
                }
                self.rooms.push(history);
                proof {
                    assert(self@ =~= old(self)@.push(history@));
                }
            },
        }
    }

    /// Reacts to what a received line carries.
    fn react(&mut self, s: &str)
        ensures
            final(self)@ == reacted(old(self)@, s@),
    {
        let pieces: Vec<String> = split_words(s);
        proof {
            assert(views(pieces@).len() == pieces.len());
        }
        if pieces.len() < 5 {
            return;
        }
        let carried: String = join_words(&pieces, 4);
        let command: Command = Command::new(carried.as_str());
        match command {
            Command::Leave(room) => {
                match find_history(&self.rooms, &room) {
                    Some(i) => {
                        let _ = self.rooms.remove(i);
                        proof {
                            assert(self@ =~= old(self)@.remove(i as int));
                        }
                    },
                    None => {},
                }
            },
            Command::Quit => {
                self.rooms = Vec::new();
                proof {
                    assert(self@ =~= Seq::<HistoryView>::empty());
                }
            },
            _ => {},
        }
    }

    /// Takes in one received line.
    fn receive_line(&mut self, line: &str)
        ensures
            final(self)@ == received_line(old(self)@, line@),
    {
        match Message::try_new(line) {
            Ok(m) => {
                let entry: String = m.history_line();
                self.append(m.room, entry);
            },
            Err(_) => {
                self.append(String::from_str("server"), String::from_str(line));
            },
        }
        self.react(line);
    }

    /// Takes in a chunk of text received from the relay.
    pub fn receive(&mut self, text: &str)
        ensures
            final(self)@ == received(old(self)@, text@),
            rooms_unique(old(self)@) ==> rooms_unique(final(self)@),
    {
        proof {
            if rooms_unique(old(self)@) {
                let pieces = lines(trimmed(text@));
                lemma_received_lines_unique(old(self)@, pieces, pieces.len() as int);
            }
        }
        let trimmed_text: String = trim(text);
        let pieces: Vec<String> = split_lines(trimmed_text.as_str());
        let mut i: usize = 0;
        proof {
            assert(views(pieces@).len() == pieces.len());
        }
        while i < pieces.len()
            invariant
                0 <= i <= pieces.len(),
                views(pieces@) == lines(trimmed(text@)),
                self@ == received_lines(old(self)@, views(pieces@), i as int),
            decreases pieces.len() - i,
        {
            self.receive_line(pieces[i].as_str());
            i = i + 1;
        }
    }

    /// Takes in the bytes of one read from the connection. No bytes change
    /// nothing and give `None`; otherwise the bytes are decoded leniently and
    /// received as text, and the result is `Some`.
    pub fn update(&mut self, data: &[u8]) -> (changed: Option<()>)
        ensures
            data@.len() == 0 ==> changed is None && final(self)@ == old(self)@,
            data@.len() > 0 ==> changed is Some && final(self)@ == received(
                old(self)@,
                lossy_text(data@),
            ),
            rooms_unique(old(self)@) ==> rooms_unique(final(self)@),
    {
        if data.len() == 0 {
            return None;
        }
        let text: String = decode_lossy(data);
        self.receive(text.as_str());
        Some(())
    }

    /// A copy of the history of `room`, if the table has the room.
    pub fn get_messages(&self, room: &str) -> (messages: Option<Vec<String>>)
        ensures
            match messages {
                Some(m) => lines_of(self@, room@) == Some(views(m@)),
                None => lines_of(self@, room@) is None,
            },
    {
        let name: String = String::from_str(room);
        match find_history(&self.rooms, &name) {
            Some(i) => Some(copy_lines(&self.rooms[i].lines)),
            None => None,
        }
    }

    /// The names of the rooms of the table, in the order in which the table
    /// came to hold them.
    pub fn get_rooms(&self) -> (names: Vec<String>)
        ensures
            views(names@) == history_names(self@),
    {
        let mut names: Vec<String> = Vec::new();
        let mut i: usize = 0;
        while i < self.rooms.len()
            invariant
                0 <= i <= self.rooms.len(),
                names.len() == i,
                forall|k: int| 0 <= k < i ==> (#[trigger] names[k])@ == self.rooms[k].room@,
            decreases self.rooms.len() - i,
        {
            names.push(self.rooms[i].room.clone());
            i = i + 1;
        }
        proof {
            assert(views(names@) =~= history_names(self@));
        }
        names
    }
}

/// Appending keeps the room names distinct.
pub proof fn lemma_appended_unique(table: Seq<HistoryView>, room: Seq<char>, entry: Seq<char>)
    requires
        rooms_unique(table),
    ensures
        rooms_unique(appended(table, room, entry)),
{
    let names = history_names(table);
    lemma_first_index(names, room);
    match first_index(names, room) {
        Some(i) => {
            assert(history_names(appended(table, room, entry)) =~= names);
        },
        None => {
            assert(history_names(appended(table, room, entry)) =~= names.push(room));
            lemma_push_no_duplicates(names, room);
        },
    }
}

/// Dropping a room keeps the room names distinct.
pub proof fn lemma_without_unique(table: Seq<HistoryView>, room: Seq<char>)
    requires
        rooms_unique(table),
    ensures
        rooms_unique(without(table, room)),
{
    let names = history_names(table);
    lemma_first_index(names, room);
    match first_index(names, room) {
        Some(i) => {
            assert(history_names(without(table, room)) =~= names.remove(i));
            lemma_remove_contains(names, i, room);
        },
        None => {},
    }
}

/// Receiving a line keeps the room names distinct.
pub proof fn lemma_received_line_unique(table: Seq<HistoryView>, line: Seq<char>)
    requires
        rooms_unique(table),
    ensures
        rooms_unique(received_line(table, line)),
{
    let kept = match parse_message(line) {
        Some(m) => appended(table, m.room, history_entry(m)),
        None => appended(table, "server"@, line),
    };
    match parse_message(line) {
        Some(m) => {
            lemma_appended_unique(table, m.room, history_entry(m));
        },
        None => {
            lemma_appended_unique(table, "server"@, line);
        },
    }
    match carried_command(line) {
        Some(CommandView::Leave(room)) => {
            lemma_without_unique(kept, room);
        },
        Some(CommandView::Quit) => {
            assert(history_names(Seq::<HistoryView>::empty()) =~= Seq::<Seq<char>>::empty());
        },
        _ => {},
    }
}

/// Receiving lines keeps the room names distinct.
pub proof fn lemma_received_lines_unique(
    table: Seq<HistoryView>,
    pieces: Seq<Seq<char>>,
    upto: int,
)
    requires
        rooms_unique(table),
    ensures
        rooms_unique(received_lines(table, pieces, upto)),
    decreases upto,
{
    if upto > 0 {
        lemma_received_lines_unique(table, pieces, upto - 1);
        lemma_received_line_unique(received_lines(table, pieces, upto - 1), pieces[upto - 1]);
    }
}

/// The history of `room` after an entry was appended to it: what it held
/// before, or nothing, and then the entry.
pub proof fn lemma_lines_of_appended(table: Seq<HistoryView>, room: Seq<char>, entry: Seq<char>)
    ensures
        lines_of(appended(table, room, entry), room) == Some(
            match lines_of(table, room) {
                Some(held) => held.push(entry),
                None => seq![entry],
            },
        ),
{
    let names = history_names(table);
    let after = history_names(appended(table, room, entry));
    lemma_first_index(names, room);
    lemma_first_index(after, room);
    match first_index(names, room) {
        Some(i) => {
            assert(after =~= names);
        },
        None => {
            assert(after =~= names.push(room));
            assert(after[names.len() as int] == room);
            let j = first_index(after, room)->0;
            if j < names.len() {
                assert(names[j] == room);
            }
        },
    }
}

/// No deduplication: a message received twice is kept twice. Where a line is
/// a message that carries neither LEAVE nor QUIT, receiving it twice puts its
/// history entry twice at the end of the history of its room.
pub proof fn lemma_received_twice(table: Seq<HistoryView>, line: Seq<char>)
    requires
        parse_message(line) is Some,
        !(carried_command(line) matches Some(CommandView::Leave(_))),
        !(carried_command(line) matches Some(CommandView::Quit)),
    ensures
        ({
            let m = parse_message(line)->0;
            let held = match lines_of(table, m.room) {
                Some(held) => held,
                None => Seq::empty(),
            };
            lines_of(received_line(received_line(table, line), line), m.room) == Some(
                held.push(history_entry(m)).push(history_entry(m)),
            )
        }),
{
    let m = parse_message(line)->0;
    let entry = history_entry(m);
    let once = received_line(table, line);
    assert(once == appended(table, m.room, entry));
    lemma_lines_of_appended(table, m.room, entry);
    lemma_lines_of_appended(once, m.room, entry);
    if lines_of(table, m.room) is None {
        assert(seq![entry] =~= Seq::<Seq<char>>::empty().push(entry));
    }
}

/// What the relay writes for one message, a client takes in as one entry.
/// Where the sender and the room are words, the body is in normal form, and
/// the code and the time fit a `usize`, receiving the line of the message
/// appends the history entry of the message to the history of its room, and
/// then the table reacts to the command, if any, that the body spells.
pub proof fn lemma_sent_is_received(
    table: Seq<HistoryView>,
    code: nat,
    sender: Seq<char>,
    time: nat,
    room: Seq<char>,
    body: Seq<char>,
)
    requires
        code <= usize::MAX,
        time <= usize::MAX,
        is_word(sender),
        is_word(room),
        is_body(body),
    ensures
        ({
            let m = MessageView { code, sender, time, room, body };
            let kept = appended(table, room, history_entry(m));
            received(table, message_line(code, sender, time, room, body)) == (match parse_command(
                body,
            ) {
                CommandView::Leave(left) => without(kept, left),
                CommandView::Quit => Seq::empty(),
                _ => kept,
            })
        }),
{
    let text = message_text(code, sender, time, room, body);
    let line = message_line(code, sender, time, room, body);
    let c = decimal(code);
    let t = decimal(time);
    let head = c + seq![' '] + sender + seq![' '] + t + seq![' '] + room;
    lemma_decimal_is_word(code);
    lemma_decimal_is_word(time);
    lemma_words_are_words(body);
    lemma_join_is_clean(words(body));
    // the text is the one line of the chunk
    assert(text == head + seq![' '] + body);
    assert(text[0] == c[0]);
    assert(text[text.len() - 1] == body[body.len() - 1]);
    lemma_trimmed_closed(text, '\n');
    assert forall|i: int| 0 <= i < head.len() implies #[trigger] head[i] != '\n' by {
        let a = c.len() as int;
        let b = a + 1 + sender.len();
        let d = b + 1 + t.len();
        if i < a {
            assert(head[i] == c[i]);
        } else if a < i < b {
            assert(head[i] == sender[i - a - 1]);
        } else if b < i < d {
            assert(head[i] == t[i - b - 1]);
        } else if d < i {
            assert(head[i] == room[i - d - 1]);
        }
    }
    assert forall|i: int| 0 <= i < text.len() implies #[trigger] text[i] != '\n' by {
        let n = head.len() as int;
        if i < n {
            assert(text[i] == head[i]);
        } else if i > n {
            assert(text[i] == body[i - n - 1]);
        }
    }
    lemma_lines_single(text);
    assert(received(table, line) == received_line(table, text)) by {
        reveal_with_fuel(received_lines, 2);
    }
    // the text is the message, and its body is what it carries
    lemma_message_text_read_back(code, sender, time, room, body);
    lemma_words_of_four(c, sender, t, room);
    lemma_words_spaced(head, body);
    assert(words(text).skip(4) =~= words(body));
}

} // verus!
