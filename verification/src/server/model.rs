//! The relay as a mathematical state machine: the registry of clients, the
//! table of rooms, and what each command does to them and sends out.

use crate::command::CommandView;
use crate::message::message_line;
use crate::lookup::first_index;
use crate::text::join;
use vstd::prelude::*;

verus! {

/// A member of a room: a nickname and the connection it is reached on.
pub struct MemberView {
    pub name: Seq<char>,
    pub connection: u64,
}

/// A client: its nickname, its connection and the rooms it has joined.
pub struct ClientView {
    pub name: Seq<char>,
    pub connection: u64,
    pub rooms: Seq<Seq<char>>,
}

/// A room: its name and its members in the order in which they joined.
pub struct RoomView {
    pub name: Seq<char>,
    pub members: Seq<MemberView>,
}

/// An event: the connection it came from, the command, and the text that the
/// command was read from.
pub struct EventView {
    pub from: u64,
    pub command: CommandView,
    pub raw: Seq<char>,
}

/// Something the relay asks of the transport.
pub enum ActionView {
    /// Write `line` to the connection `to`; a failed write is ignored.
    Send { to: u64, line: Seq<char> },
    /// Stop reading from the connection.
    ShutdownRead { connection: u64 },
    /// Close the connection in both directions.
    ShutdownBoth { connection: u64 },
}

/// The outcome of a command: a wire-stable number tells the client which.
#[derive(Debug, Clone, Copy, PartialEq, Eq, Structural)]
pub enum StatusCode {
    Okay,
    RoomDoesntExist,
    UserDoesntExist,
    PoorlyFormedCommand,
    UsernameUnavailable,
    AlreadyJoined,
    Unidentified,
}

impl StatusCode {
    /// The number that stands for the code on the wire.
    pub open spec fn number(self) -> nat {
        match self {
            StatusCode::Okay => 0,
            StatusCode::RoomDoesntExist => 1,
            StatusCode::UserDoesntExist => 2,
            StatusCode::PoorlyFormedCommand => 3,
            StatusCode::UsernameUnavailable => 4,
            StatusCode::AlreadyJoined => 5,
            StatusCode::Unidentified => 9,
        }
    }
}

/// The nicknames of a list of clients.
pub open spec fn client_names(clients: Seq<ClientView>) -> Seq<Seq<char>> {
    Seq::new(clients.len(), |i: int| clients[i].name)
}

/// The connections of a list of clients.
pub open spec fn client_connections(clients: Seq<ClientView>) -> Seq<u64> {
    Seq::new(clients.len(), |i: int| clients[i].connection)
}

/// The names of a list of rooms.
pub open spec fn room_names(rooms: Seq<RoomView>) -> Seq<Seq<char>> {
    Seq::new(rooms.len(), |i: int| rooms[i].name)
}

/// The nicknames of a list of members.
pub open spec fn member_names(members: Seq<MemberView>) -> Seq<Seq<char>> {
    Seq::new(members.len(), |i: int| members[i].name)
}

/// One `Send` of `line` to each member, in order.
pub open spec fn deliveries(members: Seq<MemberView>, line: Seq<char>) -> Seq<ActionView> {
    Seq::new(members.len(), |i: int| ActionView::Send { to: members[i].connection, line })
}

/// The announcement of a member joining.
pub open spec fn joined_text(name: Seq<char>) -> Seq<char> {
    name + " has joined."@
}

/// The announcement of a member leaving.
pub open spec fn left_text(name: Seq<char>) -> Seq<char> {
    name + " has left."@
}

/// The state of the relay: the live clients in the order in which they
/// identified, and the rooms in the order in which they were created.
pub struct ServerView {
    pub clients: Seq<ClientView>,
    pub rooms: Seq<RoomView>,
}

/// A state together with what was sent on the way to it.
pub struct Outcome {
    pub state: ServerView,
    pub actions: Seq<ActionView>,
}

/// What a command did: the next state, what was sent to others, and the
/// status and text of the reply owed to the sender.
pub struct Effect {
    pub state: ServerView,
    pub actions: Seq<ActionView>,
    pub code: StatusCode,
    pub reply: Seq<char>,
}

impl ServerView {
    /// The index of the client with nickname `name`.
    pub open spec fn client_named(self, name: Seq<char>) -> Option<int> {
        first_index(client_names(self.clients), name)
    }

    /// The index of the first client bound to `connection`.
    pub open spec fn client_on(self, connection: u64) -> Option<int> {
        first_index(client_connections(self.clients), connection)
    }

    /// The index of the room called `name`.
    pub open spec fn room_named(self, name: Seq<char>) -> Option<int> {
        first_index(room_names(self.rooms), name)
    }

    /// The state with no client and no room.
    pub open spec fn empty() -> ServerView {
        ServerView { clients: Seq::empty(), rooms: Seq::empty() }
    }

    /// What is sent when `sender` says `body` to `room`: one line to every
    /// member of the room in join order, or nothing when there is no such room.
    pub open spec fn say(
        self,
        room: Seq<char>,
        sender: Seq<char>,
        body: Seq<char>,
        now: nat,
    ) -> Seq<ActionView> {
        match self.room_named(room) {
            Some(r) => deliveries(self.rooms[r].members, message_line(0, sender, now, room, body)),
            None => Seq::empty(),
        }
    }

    /// What is sent when `sender` says `body` to each of the first `upto`
    /// rooms in turn.
    pub open spec fn shout(
        self,
        upto: int,
        sender: Seq<char>,
        body: Seq<char>,
        now: nat,
    ) -> Seq<ActionView>
        decreases upto,
    {
        if upto <= 0 {
            Seq::empty()
        } else {
            self.shout(upto - 1, sender, body, now) + self.say(
                self.rooms[upto - 1].name,
                sender,
                body,
                now,
            )
        }
    }

    /// IDENTIFY: a nickname in use is refused; otherwise a client with that
    /// nickname, bound to the connection and in no room, is added.
    pub open spec fn identify(self, from: u64, nick: Seq<char>, raw: Seq<char>) -> Effect {
        if self.client_named(nick) is Some {
            Effect {
                state: self,
                actions: Seq::empty(),
                code: StatusCode::UsernameUnavailable,
                reply: raw,
            }
        } else {
            let client = ClientView { name: nick, connection: from, rooms: Seq::empty() };
            Effect {
                state: ServerView { clients: self.clients.push(client), rooms: self.rooms },
                actions: Seq::empty(),
                code: StatusCode::Okay,
                reply: raw,
            }
        }
    }

    /// JOIN by the client at index `c`: a member of the room is told so;
    /// otherwise the client is added at the end of the room's members (the
    /// room is created when there is none), the room is added to the client's
    /// rooms, and every member, the new one included, is told of the arrival.
    pub open spec fn join(self, c: int, room: Seq<char>, raw: Seq<char>, now: nat) -> Effect {
        let client = self.clients[c];
        let found = self.room_named(room);
        if found is Some && first_index(member_names(self.rooms[found->0].members), client.name)
            is Some {
            Effect {
                state: self,
                actions: Seq::empty(),
                code: StatusCode::AlreadyJoined,
                reply: raw,
            }
        } else {
            let member = MemberView { name: client.name, connection: client.connection };
            let members = match found {
                Some(r) => self.rooms[r].members.push(member),
                None => seq![member],
            };
            let rooms = match found {
                Some(r) => self.rooms.update(r, RoomView { name: self.rooms[r].name, members }),
                None => self.rooms.push(RoomView { name: room, members }),
            };
            let joined = if first_index(client.rooms, room) is Some {
                client.rooms
            } else {
                client.rooms.push(room)
            };
            let clients = self.clients.update(
                c,
                ClientView { name: client.name, connection: client.connection, rooms: joined },
            );
            Effect {
                state: ServerView { clients, rooms },
                actions: deliveries(
                    members,
                    message_line(0, "server"@, now, room, joined_text(client.name)),
                ),
                code: StatusCode::Okay,
                reply: raw,
            }
        }
    }

    /// The client at index `c` leaves `room`. Where the room is not among the
    /// client's rooms nothing happens. Otherwise every member of the room, the
    /// leaver included, is told; then the client is taken out of the members
    /// and the room out of the client's rooms; a room left empty is deleted.
    pub open spec fn leave(self, c: int, room: Seq<char>, now: nat) -> Outcome {
        let client = self.clients[c];
        match first_index(client.rooms, room) {
            None => Outcome { state: self, actions: Seq::empty() },
            Some(k) => {
                let clients = self.clients.update(
                    c,
                    ClientView {
                        name: client.name,
                        connection: client.connection,
                        rooms: client.rooms.remove(k),
                    },
                );
                match self.room_named(room) {
                    None => Outcome {
                        state: ServerView { clients, rooms: self.rooms },
                        actions: Seq::empty(),
                    },
                    Some(r) => {
                        let before = self.rooms[r].members;
                        let after = match first_index(member_names(before), client.name) {
                            Some(m) => before.remove(m),
                            None => before,
                        };
                        let rooms = if after.len() == 0 {
                            self.rooms.remove(r)
                        } else {
                            self.rooms.update(
                                r,
                                RoomView { name: self.rooms[r].name, members: after },
                            )
                        };
                        Outcome {
                            state: ServerView { clients, rooms },
                            actions: deliveries(
                                before,
                                message_line(0, "server"@, now, room, left_text(client.name)),
                            ),
                        }
                    },
                }
            },
        }
    }

    /// The client at index `c` leaves its rooms one after another, in the
    /// order in which it joined them.
    pub open spec fn leave_all(self, c: int, now: nat) -> Outcome
        decreases self.clients[c].rooms.len(),
    {
        if c < 0 || c >= self.clients.len() || self.clients[c].rooms.len() == 0 {
            Outcome { state: self, actions: Seq::empty() }
        } else {
            let first = self.leave(c, self.clients[c].rooms[0], now);
            let rest = first.state.leave_all(c, now);
            Outcome { state: rest.state, actions: first.actions + rest.actions }
        }
    }

    /// QUIT by the client at index `c`: it leaves all its rooms, its
    /// connection is closed, and it is removed from the registry.
    pub open spec fn quit(self, c: int, raw: Seq<char>, now: nat) -> Effect {
        let left = self.leave_all(c, now);
        Effect {
            state: ServerView { clients: left.state.clients.remove(c), rooms: left.state.rooms },
            actions: left.actions.push(
                ActionView::ShutdownBoth { connection: self.clients[c].connection },
            ),
            code: StatusCode::Okay,
            reply: raw,
        }
    }

    /// WHISPER by `sender`: the target, if there is a client of that nickname,
    /// is sent the text in a room named after it.
    pub open spec fn whisper(
        self,
        sender: Seq<char>,
        to: Seq<char>,
        body: Seq<char>,
        raw: Seq<char>,
        now: nat,
    ) -> Effect {
        match self.client_named(to) {
            Some(t) => Effect {
                state: self,
                actions: seq![
                    ActionView::Send {
                        to: self.clients[t].connection,
                        line: message_line(0, sender, now, to, body),
                    },
                ],
                code: StatusCode::Okay,
                reply: raw,
            },
            None => Effect {
                state: self,
                actions: Seq::empty(),
                code: StatusCode::UserDoesntExist,
                reply: raw,
            },
        }
    }

    /// LIST: the names of all rooms, or the nicknames of the members of one
    /// room, separated by single spaces.
    pub open spec fn list(self, room: Option<Seq<char>>, raw: Seq<char>) -> Effect {
        match room {
            None => Effect {
                state: self,
                actions: Seq::empty(),
                code: StatusCode::Okay,
                reply: join(room_names(self.rooms)),
            },
            Some(name) => match self.room_named(name) {
                Some(r) => Effect {
                    state: self,
                    actions: Seq::empty(),
                    code: StatusCode::Okay,
                    reply: join(member_names(self.rooms[r].members)),
                },
                None => Effect {
                    state: self,
                    actions: Seq::empty(),
                    code: StatusCode::RoomDoesntExist,
                    reply: raw,
                },
            },
        }
    }

    /// What a command of the identified client at index `c` does.
    pub open spec fn command(
        self,
        c: int,
        command: CommandView,
        raw: Seq<char>,
        now: nat,
    ) -> Effect {
        let sender = self.clients[c].name;
        match command {
            CommandView::Join(room) => self.join(c, room, raw, now),
            CommandView::List(room) => self.list(room, raw),
            CommandView::Say(room, body) => Effect {
                state: self,
                actions: self.say(room, sender, body, now),
                code: StatusCode::Okay,
                reply: raw,
            },
            CommandView::Whisper(to, body) => self.whisper(sender, to, body, raw, now),
            CommandView::Shout(body) => Effect {
                state: self,
                actions: self.shout(self.rooms.len() as int, sender, body, now),
                code: StatusCode::Okay,
                reply: raw,
            },
            CommandView::Leave(room) => {
                let left = self.leave(c, room, now);
                Effect {
                    state: left.state,
                    actions: left.actions,
                    code: StatusCode::Okay,
                    reply: raw,
                }
            },
            CommandView::Quit => self.quit(c, raw, now),
            _ => Effect {
                state: self,
                actions: Seq::empty(),
                code: StatusCode::PoorlyFormedCommand,
                reply: raw,
            },
        }
    }

    /// The acknowledgement owed to the connection `from`.
    pub open spec fn acknowledgement(from: u64, code: StatusCode, reply: Seq<char>, now: nat)
        -> ActionView {
        ActionView::Send {
            to: from,
            line: message_line(code.number(), "server"@, now, "server"@, reply),
        }
    }

    /// What the relay does with one event. IDENTIFY is open to every
    /// connection. Any other command from a connection that no client is bound
    /// to is refused: the connection is told `9 UNIDENTIFIED`, no more is read
    /// from it, and nothing else happens. In every other case what the command
    /// sends to others comes first and the acknowledgement to the sender last.
    pub open spec fn step(
        self,
        from: u64,
        command: CommandView,
        raw: Seq<char>,
        now: nat,
    ) -> Outcome {
        match command {
            CommandView::Identify(nick) => {
                let e = self.identify(from, nick, raw);
                Outcome {
                    state: e.state,
                    actions: e.actions.push(Self::acknowledgement(from, e.code, e.reply, now)),
                }
            },
            _ => match self.client_on(from) {
                None => Outcome {
                    state: self,
                    actions: seq![
                        ActionView::Send { to: from, line: "9 UNIDENTIFIED\n"@ },
                        ActionView::ShutdownRead { connection: from },
                    ],
                },
                Some(c) => {
                    let e = self.command(c, command, raw, now);
                    Outcome {
                        state: e.state,
                        actions: e.actions.push(Self::acknowledgement(from, e.code, e.reply, now)),
                    }
                },
            },
        }
    }
}

} // verus!
