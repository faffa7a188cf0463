//! The relay: the single authority over clients, rooms and memberships.
//!
//! [`Server::exec`] takes one event and the time, changes the state, and hands
//! back what is to be written and which connections are to be closed. The
//! caller owns the sockets and carries those actions out in order.

pub mod laws;
pub mod model;

use crate::command::Command;
use crate::message::{create_message, message_line};
use crate::lookup::{first_from, first_index};
use crate::server::model::{
    client_connections, client_names, deliveries, member_names, room_names, ActionView,
    ClientView, EventView, MemberView, RoomView, ServerView, StatusCode,
};
use crate::server::laws::lemma_step_wf;
use crate::text::{join_words, views};
use vstd::prelude::*;

verus! {

/// A member of a room: a nickname and the connection it is reached on.
#[derive(Debug, Clone, PartialEq, Eq)]
pub struct Member {
    pub name: String,
    pub connection: u64,
}

/// A participant: a connection with a nickname bound to it.
#[derive(Debug, Clone, PartialEq, Eq)]
pub struct Client {
    pub name: String,
    pub connection: u64,
    pub rooms: Vec<String>,
}

/// A named group of members, in the order in which they joined.
#[derive(Debug, Clone, PartialEq, Eq)]
pub struct Room {
    pub name: String,
    pub members: Vec<Member>,
}

/// Something the relay asks of the transport.
#[derive(Debug, Clone, PartialEq, Eq)]
pub enum Action {
    /// Write `line` to the connection `to`; a failed write is ignored.
    Send { to: u64, line: String },
    /// Stop reading from the connection.
    ShutdownRead { connection: u64 },
    /// Close the connection in both directions.
    ShutdownBoth { connection: u64 },
}

/// A command read from a connection, with the text it was read from.
#[derive(Debug, Clone, PartialEq, Eq)]
pub struct Event {
    pub from: u64,
    pub command: Command,
    pub raw: String,
}

/// The state of the relay.
#[derive(Debug, Clone, PartialEq, Eq)]
pub struct Server {
    pub clients: Vec<Client>,
    pub rooms: Vec<Room>,
}

impl View for Member {
    type V = MemberView;

    open spec fn view(&self) -> MemberView {
        MemberView { name: self.name@, connection: self.connection }
    }
}

impl View for Client {
    type V = ClientView;

    open spec fn view(&self) -> ClientView {
        ClientView { name: self.name@, connection: self.connection, rooms: views(self.rooms@) }
    }
}

/// The values of a list of members.
pub open spec fn member_views(members: Seq<Member>) -> Seq<MemberView> {
    Seq::new(members.len(), |i: int| members[i]@)
}

impl View for Room {
    type V = RoomView;

    open spec fn view(&self) -> RoomView {
        RoomView { name: self.name@, members: member_views(self.members@) }
    }
}

impl View for Action {
    type V = ActionView;

    open spec fn view(&self) -> ActionView {
        match self {
            Action::Send { to, line } => ActionView::Send { to: *to, line: line@ },
            Action::ShutdownRead { connection } => ActionView::ShutdownRead {
                connection: *connection,
            },
            Action::ShutdownBoth { connection } => ActionView::ShutdownBoth {
                connection: *connection,
            },
        }
    }
}

impl View for Event {
    type V = EventView;

    open spec fn view(&self) -> EventView {
        EventView { from: self.from, command: self.command@, raw: self.raw@ }
    }
}

/// The values of a list of clients.
pub open spec fn client_views(clients: Seq<Client>) -> Seq<ClientView> {
    Seq::new(clients.len(), |i: int| clients[i]@)
}

/// The values of a list of rooms.
pub open spec fn room_views(rooms: Seq<Room>) -> Seq<RoomView> {
    Seq::new(rooms.len(), |i: int| rooms[i]@)
}

/// The values of a list of actions.
pub open spec fn action_views(actions: Seq<Action>) -> Seq<ActionView> {
    Seq::new(actions.len(), |i: int| actions[i]@)
}

impl View for Server {
    type V = ServerView;

    open spec fn view(&self) -> ServerView {
        ServerView { clients: client_views(self.clients@), rooms: room_views(self.rooms@) }
    }
}

impl StatusCode {
    /// The number that stands for the code on the wire.
    pub fn to_usize(self) -> (n: usize)
        ensures
            n == self.number(),
    {
        match self {
            StatusCode::Okay => 0,
            StatusCode::RoomDoesntExist => 1,
            StatusCode::UserDoesntExist => 2,
            StatusCode::PoorlyFormedCommand => 3,
            StatusCode::UsernameUnavailable => 4,
            StatusCode::AlreadyJoined => 5,
            StatusCode::Unidentified => 9,
        }
    }
}

/// What an index found by a search means as a mathematical index.
pub open spec fn found(r: Option<usize>) -> Option<int> {
    match r {
        Some(i) => Some(i as int),
        None => None,
    }
}

/// The index of the first client called `name`.
fn find_client(clients: &Vec<Client>, name: &String) -> (r: Option<usize>)
    ensures
        found(r) == first_index(client_names(client_views(clients@)), name@),
{
    let ghost names = client_names(client_views(clients@));
    let mut i: usize = 0;
    while i < clients.len()
        invariant
            0 <= i <= clients.len(),
            names == client_names(client_views(clients@)),
            first_from(names, name@, 0) == first_from(names, name@, i as int),
        decreases clients.len() - i,
    {
        if clients[i].name == *name {
            return Some(i);
        }
        i = i + 1;
    }
    None
}

/// The index of the first client bound to `connection`.
fn find_connection(clients: &Vec<Client>, connection: u64) -> (r: Option<usize>)
    ensures
        found(r) == first_index(client_connections(client_views(clients@)), connection),
{
    let ghost connections = client_connections(client_views(clients@));
    let mut i: usize = 0;
    while i < clients.len()
        invariant
            0 <= i <= clients.len(),
            connections == client_connections(client_views(clients@)),
            first_from(connections, connection, 0) == first_from(connections, connection, i as int),
        decreases clients.len() - i,
    {
        if clients[i].connection == connection {
            return Some(i);
        }
        i = i + 1;
    }
    None
}

/// The index of the first room called `name`.
fn find_room(rooms: &Vec<Room>, name: &String) -> (r: Option<usize>)
    ensures
        found(r) == first_index(room_names(room_views(rooms@)), name@),
{
    let ghost names = room_names(room_views(rooms@));
    let mut i: usize = 0;
    while i < rooms.len()
        invariant
            0 <= i <= rooms.len(),
            names == room_names(room_views(rooms@)),
            first_from(names, name@, 0) == first_from(names, name@, i as int),
        decreases rooms.len() - i,
    {
        if rooms[i].name == *name {
            return Some(i);
        }
        i = i + 1;
    }
    None
}

/// The index of the first member called `name`.
fn find_member(members: &Vec<Member>, name: &String) -> (r: Option<usize>)
    ensures
        found(r) == first_index(member_names(member_views(members@)), name@),
{
    let ghost names = member_names(member_views(members@));
    let mut i: usize = 0;
    while i < members.len()
        invariant
            0 <= i <= members.len(),
            names == member_names(member_views(members@)),
            first_from(names, name@, 0) == first_from(names, name@, i as int),
        decreases members.len() - i,
    {
        if members[i].name == *name {
            return Some(i);
        }
        i = i + 1;
    }
    None
}

/// The index of the first occurrence of `name` in `names`.
fn find_name(names: &Vec<String>, name: &String) -> (r: Option<usize>)
    ensures
        found(r) == first_index(views(names@), name@),
{
    let mut i: usize = 0;
    while i < names.len()
        invariant
            0 <= i <= names.len(),
            first_from(views(names@), name@, 0) == first_from(views(names@), name@, i as int),
        decreases names.len() - i,
    {
        if names[i] == *name {
            return Some(i);
        }
        i = i + 1;
    }
    None
}

impl Server {
    /// A relay with no client and no room.
    pub fn new() -> (server: Server)
        ensures
            server@ == ServerView::empty(),
            server@.wf(),
    {
        let server = Server { clients: Vec::new(), rooms: Vec::new() };
        proof {
            assert(server@.clients =~= Seq::<ClientView>::empty());
            assert(server@.rooms =~= Seq::<RoomView>::empty());
        }
        server
    }

    /// Addresses `what` to each of `to`, in order.
    pub fn say(to: &Vec<Member>, what: &String) -> (actions: Vec<Action>)
        ensures
            action_views(actions@) == deliveries(member_views(to@), what@),
    {
        let mut actions: Vec<Action> = Vec::new();
        let mut i: usize = 0;
        while i < to.len()
            invariant
                0 <= i <= to.len(),
                actions.len() == i,
                forall|k: int|
                    0 <= k < i ==> (#[trigger] actions[k])@ == (ActionView::Send {
                        to: to[k].connection,
                        line: what@,
                    }),
            decreases to.len() - i,
        {
            actions.push(Action::Send { to: to[i].connection, line: what.clone() });
            i = i + 1;
        }
        proof {
            assert(action_views(actions@) =~= deliveries(member_views(to@), what@));
        }
        actions
    }

    /// Says `message` from `user` to the members of `room`, if there is such a
    /// room.
    pub fn on_say(&self, room: &String, user: &String, message: &String, now: u64) -> (actions:
        Vec<Action>)
        ensures
            action_views(actions@) == self@.say(room@, user@, message@, now as nat),
    {
        match find_room(&self.rooms, room) {
            Some(r) => {
                let line: String = create_message(
                    0,
                    message.as_str(),
                    user.as_str(),
                    room.as_str(),
                    now,
                );
                Server::say(&self.rooms[r].members, &line)
            },
            None => {
                let actions: Vec<Action> = Vec::new();
                proof {
                    assert(action_views(actions@) =~= Seq::<ActionView>::empty());
                }
                actions
            },
        }
    }

    /// Takes the client at `index` out of `room`, telling the members first.
    pub fn on_leave(&mut self, room: &String, index: usize, now: u64) -> (actions: Vec<Action>)
        requires
            index < old(self).clients.len(),
        ensures
            final(self)@ == old(self)@.leave(index as int, room@, now as nat).state,
            action_views(actions@) == old(self)@.leave(index as int, room@, now as nat).actions,
    {
        let mut actions: Vec<Action> = Vec::new();
        let k: usize = match find_name(&self.clients[index].rooms, room) {
            Some(k) => k,
            None => {
                proof {
                    assert(action_views(actions@) =~= Seq::<ActionView>::empty());
                }
                return actions;
            },
        };
        match find_room(&self.rooms, room) {
            Some(r) => {
                let mut text: String = self.clients[index].name.clone();
                text.append(" has left.");
                let line: String = create_message(0, text.as_str(), "server", room.as_str(), now);
                actions = Server::say(&self.rooms[r].members, &line);
                match find_member(&self.rooms[r].members, &self.clients[index].name) {
                    Some(m) => {
                        let _ = self.rooms[r].members.remove(m);
                        proof {
                            assert(member_views(self.rooms[r as int].members@) =~= member_views(
                                old(self).rooms[r as int].members@,
                            ).remove(m as int));
                        }
                    },
                    None => {},
                }
                if self.rooms[r].members.len() == 0 {
                    let _ = self.rooms.remove(r);
                    proof {
                        assert(room_views(self.rooms@) =~= room_views(old(self).rooms@).remove(
                            r as int,
                        ));
                    }
                } else {
                    proof {
                        assert(room_views(self.rooms@) =~= room_views(old(self).rooms@).update(
                            r as int,
                            self.rooms[r as int]@,
                        ));
                    }
                }
            },
            None => {
                proof {
                    assert(action_views(actions@) =~= Seq::<ActionView>::empty());
                }
            },
        }
        let _ = self.clients[index].rooms.remove(k);
        proof {
            assert(views(self.clients[index as int].rooms@) =~= views(
                old(self).clients[index as int].rooms@,
            ).remove(k as int));
            assert(client_views(self.clients@) =~= client_views(old(self).clients@).update(
                index as int,
                self.clients[index as int]@,
            ));
        }
        actions
    }

    /// Registers `nick` on the connection `from`, unless the nickname is taken.
    fn on_identify(&mut self, from: u64, nick: String) -> (code: StatusCode)
        ensures
            final(self)@ == old(self)@.identify(from, nick@, Seq::empty()).state,
            code == old(self)@.identify(from, nick@, Seq::empty()).code,
    {
        if find_client(&self.clients, &nick).is_some() {
            StatusCode::UsernameUnavailable
        } else {
            let client = Client { name: nick, connection: from, rooms: Vec::new() };
            proof {
                assert(client@.rooms =~= Seq::<Seq<char>>::empty());
            }
            self.clients.push(client);
            proof {
                assert(client_views(self.clients@) =~= client_views(old(self).clients@).push(
                    client@,
                ));
            }
            StatusCode::Okay
        }
    }

    /// Adds the client at `index` to `room`, creating the room when there is
    /// none, and tells the members.
    fn on_join(&mut self, index: usize, room: &String, now: u64) -> (r: (Vec<Action>, StatusCode))
        requires
            index < old(self).clients.len(),
        ensures
            final(self)@ == old(self)@.join(index as int, room@, Seq::empty(), now as nat).state,
            action_views(r.0@) == old(self)@.join(
                index as int,
                room@,
                Seq::empty(),
                now as nat,
            ).actions,
            r.1 == old(self)@.join(index as int, room@, Seq::empty(), now as nat).code,
    {
        let place: Option<usize> = find_room(&self.rooms, room);
        let known: bool = match place {
            Some(r) => find_member(&self.rooms[r].members, &self.clients[index].name).is_some(),
            None => false,
        };
        if known {
            let actions: Vec<Action> = Vec::new();
            proof {
                assert(action_views(actions@) =~= Seq::<ActionView>::empty());
            }
            return (actions, StatusCode::AlreadyJoined);
        }
        let member = Member {
            name: self.clients[index].name.clone(),
            connection: self.clients[index].connection,
        };
        let r: usize = match place {
            Some(r) => {
                self.rooms[r].members.push(member);
                proof {
                    assert(member_views(self.rooms[r as int].members@) =~= member_views(
                        old(self).rooms[r as int].members@,
                    ).push(member@));
                    assert(room_views(self.rooms@) =~= room_views(old(self).rooms@).update(
                        r as int,
                        self.rooms[r as int]@,
                    ));
                }
                r
            },
            None => {
                let mut members: Vec<Member> = Vec::new();
                members.push(member);
                let created = Room { name: room.clone(), members };
                proof {
                    assert(created@.members =~= seq![member@]);
                }
                self.rooms.push(created);
                proof {
                    assert(room_views(self.rooms@) =~= room_views(old(self).rooms@).push(
                        created@,
                    ));
                }
                self.rooms.len() - 1
            },
        };
        if find_name(&self.clients[index].rooms, room).is_none() {
            self.clients[index].rooms.push(room.clone());
            proof {
                assert(views(self.clients[index as int].rooms@) =~= views(
                    old(self).clients[index as int].rooms@,
                ).push(room@));
            }
        }
        proof {
            assert(client_views(self.clients@) =~= client_views(old(self).clients@).update(
                index as int,
                self.clients[index as int]@,
            ));
        }
        let mut text: String = self.clients[index].name.clone();
        text.append(" has joined.");
        let line: String = create_message(0, text.as_str(), "server", room.as_str(), now);
        let actions: Vec<Action> = Server::say(&self.rooms[r].members, &line);
        (actions, StatusCode::Okay)
    }

    /// The names of all rooms, or the nicknames of the members of one room.
    fn on_list(&self, room: &Option<String>) -> (r: (StatusCode, Option<String>))
        ensures
            r.0 == self@.list(
                match room {
                    Some(name) => Some(name@),
                    None => None,
                },
                Seq::empty(),
            ).code,
            r.1 matches Some(text) ==> r.0 == StatusCode::Okay && text@ == self@.list(
                match room {
                    Some(name) => Some(name@),
                    None => None,
                },
                Seq::empty(),
            ).reply,
            r.1 is None ==> r.0 != StatusCode::Okay,
    {
        match room {
            None => {
                let mut names: Vec<String> = Vec::new();
                let mut i: usize = 0;
                while i < self.rooms.len()
                    invariant
                        0 <= i <= self.rooms.len(),
                        views(names@) == room_names(room_views(self.rooms@)).take(i as int),
                    decreases self.rooms.len() - i,
                {
                    let ghost before = names@;
                    names.push(self.rooms[i].name.clone());
                    proof {
                        let all = room_names(room_views(self.rooms@));
                        assert(views(before) == all.take(i as int));
                        assert(all.take(i as int).len() == i);
                        assert(views(before).len() == before.len());
                        assert(names@[i as int]@ == self.rooms[i as int].name@);
                        assert forall|k: int| 0 <= k < i + 1 implies #[trigger] views(names@)[k]
                            == all[k] by {
                            if k < i {
                                assert(views(before)[k] == all.take(i as int)[k]);
                            }
                        }
                        assert(views(names@) =~= all.take(i + 1));
                    }
                    i = i + 1;
                }
                proof {
                    assert(views(names@) =~= room_names(room_views(self.rooms@)));
                    assert(views(names@).skip(0) =~= views(names@));
                }
                (StatusCode::Okay, Some(join_words(&names, 0)))
            },
            Some(name) => match find_room(&self.rooms, name) {
                Some(r) => {
                    let members: &Vec<Member> = &self.rooms[r].members;
                    let mut names: Vec<String> = Vec::new();
                    let mut i: usize = 0;
                    while i < members.len()
                        invariant
                            0 <= i <= members.len(),
                            views(names@) == member_names(member_views(members@)).take(i as int),
                        decreases members.len() - i,
                    {
                        let ghost before = names@;
                        names.push(members[i].name.clone());
                        proof {
                            let all = member_names(member_views(members@));
                            assert(views(before) == all.take(i as int));
                            assert(all.take(i as int).len() == i);
                            assert(views(before).len() == before.len());
                            assert(names@[i as int]@ == members[i as int].name@);
                            assert forall|k: int| 0 <= k < i + 1 implies #[trigger] views(
                                names@,
                            )[k] == all[k] by {
                                if k < i {
                                    assert(views(before)[k] == all.take(i as int)[k]);
                                }
                            }
                            assert(views(names@) =~= all.take(i + 1));
                        }
                        i = i + 1;
                    }
                    proof {
                        assert(views(names@) =~= member_names(member_views(members@)));
                        assert(views(names@).skip(0) =~= views(names@));
                    }
                    (StatusCode::Okay, Some(join_words(&names, 0)))
                },
                None => (StatusCode::RoomDoesntExist, None),
            },
        }
    }

    /// Sends `body` from `sender` to the client called `to`, if there is one.
    fn on_whisper(&self, sender: &String, to: &String, body: &String, now: u64) -> (r: (
        Vec<Action>,
        StatusCode,
    ))
        ensures
            action_views(r.0@) == self@.whisper(
                sender@,
                to@,
                body@,
                Seq::empty(),
                now as nat,
            ).actions,
            r.1 == self@.whisper(sender@, to@, body@, Seq::empty(), now as nat).code,
    {
        let mut actions: Vec<Action> = Vec::new();
        match find_client(&self.clients, to) {
            Some(t) => {
                let line: String = create_message(
                    0,
                    body.as_str(),
                    sender.as_str(),
                    to.as_str(),
                    now,
                );
                actions.push(Action::Send { to: self.clients[t].connection, line });
                proof {
                    assert(action_views(actions@) =~= seq![
                        ActionView::Send {
                            to: self@.clients[t as int].connection,
                            line: message_line(0, sender@, now as nat, to@, body@),
                        },
                    ]);
                }
                (actions, StatusCode::Okay)
            },
            None => {
                proof {
                    assert(action_views(actions@) =~= Seq::<ActionView>::empty());
                }
                (actions, StatusCode::UserDoesntExist)
            },
        }
    }

    /// Says `body` from `sender` to every room in turn.
    fn on_shout(&self, sender: &String, body: &String, now: u64) -> (actions: Vec<Action>)
        ensures
            action_views(actions@) == self@.shout(
                self@.rooms.len() as int,
                sender@,
                body@,
                now as nat,
            ),
    {
        let mut actions: Vec<Action> = Vec::new();
        let mut i: usize = 0;
        proof {
            assert(action_views(actions@) =~= Seq::<ActionView>::empty());
        }
        while i < self.rooms.len()
            invariant
                0 <= i <= self.rooms.len(),
                action_views(actions@) == self@.shout(i as int, sender@, body@, now as nat),
            decreases self.rooms.len() - i,
        {
            let mut said: Vec<Action> = self.on_say(&self.rooms[i].name, sender, body, now);
            let ghost before = actions@;
            let ghost added = said@;
            actions.append(&mut said);
            proof {
                assert(action_views(actions@) =~= action_views(before) + action_views(added));
            }
            i = i + 1;
        }
        actions
    }

    /// Takes the client at `index` out of all its rooms, closes its
    /// connection and removes it.
    fn on_quit(&mut self, index: usize, now: u64) -> (actions: Vec<Action>)
        requires
            index < old(self).clients.len(),
        ensures
            final(self)@ == old(self)@.quit(index as int, Seq::empty(), now as nat).state,
            action_views(actions@) == old(self)@.quit(
                index as int,
                Seq::empty(),
                now as nat,
            ).actions,
    {
        let connection: u64 = self.clients[index].connection;
        let mut actions: Vec<Action> = Vec::new();
        proof {
            assert(action_views(actions@) =~= Seq::<ActionView>::empty());
        }
        while self.clients[index].rooms.len() > 0
            invariant
                index < self.clients.len(),
                self.clients.len() == old(self).clients.len(),
                old(self)@.leave_all(index as int, now as nat).state == self@.leave_all(
                    index as int,
                    now as nat,
                ).state,
                old(self)@.leave_all(index as int, now as nat).actions == action_views(actions@)
                    + self@.leave_all(index as int, now as nat).actions,
            decreases self.clients[index as int].rooms.len(),
        {
            let room: String = self.clients[index].rooms[0].clone();
            let ghost before = actions@;
            let ghost state = self@;
            let mut told: Vec<Action> = self.on_leave(&room, index, now);
            let ghost added = told@;
            actions.append(&mut told);
            proof {
                assert(state.clients[index as int].rooms[0] == room@);
                assert(action_views(actions@) =~= action_views(before) + action_views(added));
                assert(action_views(before) + (action_views(added) + self@.leave_all(
                    index as int,
                    now as nat,
                ).actions) =~= action_views(before) + action_views(added) + self@.leave_all(
                    index as int,
                    now as nat,
                ).actions);
            }
        }
        proof {
            assert(action_views(actions@) + Seq::<ActionView>::empty() =~= action_views(
                actions@,
            ));
        }
        let ghost left = actions@;
        let ghost state = self@;
        actions.push(Action::ShutdownBoth { connection });
        let _ = self.clients.remove(index);
        proof {
            assert(action_views(actions@) =~= action_views(left).push(
                ActionView::ShutdownBoth { connection },
            ));
            assert(client_views(self.clients@) =~= state.clients.remove(index as int));
        }
        actions
    }

    /// Carries out one event at time `now`, in seconds since the Unix epoch.
    ///
    /// The state becomes what [`ServerView::step`] says, and the actions
    /// handed back are those it lists, in order: what the command sends to
    /// others first, the acknowledgement to the sender last.
    pub fn exec(&mut self, event: Event, now: u64) -> (actions: Vec<Action>)
        ensures
            final(self)@ == old(self)@.step(
                event.from,
                event.command@,
                event.raw@,
                now as nat,
            ).state,
            action_views(actions@) == old(self)@.step(
                event.from,
                event.command@,
                event.raw@,
                now as nat,
            ).actions,
            old(self)@.wf() ==> final(self)@.wf(),
    {
        proof {
            if old(self)@.wf() {
                lemma_step_wf(old(self)@, event.from, event.command@, event.raw@, now as nat);
            }
        }
        let Event { from, command, raw } = event;
        let mut actions: Vec<Action> = Vec::new();
        let mut code: StatusCode = StatusCode::PoorlyFormedCommand;
        let mut reply: String = raw;
        proof {
            assert(action_views(actions@) =~= Seq::<ActionView>::empty());
        }
        match command {
            Command::Identify(nick) => {
                code = self.on_identify(from, nick);
            },
            other => {
                let index: usize = match find_connection(&self.clients, from) {
                    Some(index) => index,
                    None => {
                        actions.push(
                            Action::Send { to: from, line: String::from_str("9 UNIDENTIFIED\n") },
                        );
                        actions.push(Action::ShutdownRead { connection: from });
                        proof {
                            assert(action_views(actions@) =~= seq![
                                ActionView::Send { to: from, line: "9 UNIDENTIFIED\n"@ },
                                ActionView::ShutdownRead { connection: from },
                            ]);
                        }
                        return actions;
                    },
                };
                let sender: String = self.clients[index].name.clone();
                match other {
                    Command::Join(room) => {
                        let joined: (Vec<Action>, StatusCode) = self.on_join(index, &room, now);
                        actions = joined.0;
                        code = joined.1;
                    },
                    Command::List(room) => {
                        let listed: (StatusCode, Option<String>) = self.on_list(&room);
                        code = listed.0;
                        match listed.1 {
                            Some(text) => {
                                reply = text;
                            },
                            None => {},
                        }
                    },
                    Command::Say(room, body) => {
                        actions = self.on_say(&room, &sender, &body, now);
                        code = StatusCode::Okay;
                    },
                    Command::Whisper(to, body) => {
                        let sent: (Vec<Action>, StatusCode) = self.on_whisper(
                            &sender,
                            &to,
                            &body,
                            now,
                        );
                        actions = sent.0;
                        code = sent.1;
                    },
                    Command::Shout(body) => {
                        actions = self.on_shout(&sender, &body, now);
                        code = StatusCode::Okay;
                    },
                    Command::Leave(room) => {
                        actions = self.on_leave(&room, index, now);
                        code = StatusCode::Okay;
                    },
                    Command::Quit => {
                        actions = self.on_quit(index, now);
                        code = StatusCode::Okay;
                    },
                    _ => {},
                }
            },
        }
        let line: String = create_message(code.to_usize(), reply.as_str(), "server", "server", now);
        let ghost sent = actions@;
        actions.push(Action::Send { to: from, line });
        proof {
            assert(action_views(actions@) =~= action_views(sent).push(
                ServerView::acknowledgement(
                    from,
                    code,
                    reply@,
                    now as nat,
                ),
            ));
        }
        actions
    }
}

} // verus!
