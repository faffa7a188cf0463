//! What holds of every state that the relay can reach: nicknames are unique,
//! a client's rooms and the rooms' members agree, and no room is empty.

use crate::command::CommandView;
use crate::message::message_line;
use crate::lookup::{
    first_index, lemma_first_index, lemma_push_contains, lemma_push_no_duplicates,
    lemma_remove_contains,
};
use crate::server::model::{
    client_connections, client_names, member_names, room_names, ActionView, ClientView,
    EventView, MemberView, RoomView, ServerView, StatusCode,
};
use vstd::prelude::*;

verus! {

/// Whether `room` is among the rooms that the client has joined.
pub open spec fn has_joined(client: ClientView, room: Seq<char>) -> bool {
    client.rooms.contains(room)
}

/// Whether a client called `name` is among the members of the room.
pub open spec fn has_member(room: RoomView, name: Seq<char>) -> bool {
    member_names(room.members).contains(name)
}

/// Whether `member` stands for one of `clients`: a client of that nickname,
/// bound to that connection.
pub open spec fn is_client(clients: Seq<ClientView>, member: MemberView) -> bool {
    exists|c: int|
        0 <= c < clients.len() && (#[trigger] clients[c]).name == member.name
            && clients[c].connection == member.connection
}

impl ServerView {
    /// At most one client has any given nickname.
    pub open spec fn nicknames_unique(self) -> bool {
        client_names(self.clients).no_duplicates()
    }

    /// At most one room has any given name.
    pub open spec fn room_names_unique(self) -> bool {
        room_names(self.rooms).no_duplicates()
    }

    /// No room is empty.
    pub open spec fn no_empty_room(self) -> bool {
        forall|r: int| 0 <= r < self.rooms.len() ==> (#[trigger] self.rooms[r]).members.len() > 0
    }

    /// No room lists a member twice, and no client lists a room twice.
    pub open spec fn no_repeats(self) -> bool {
        &&& forall|r: int|
            0 <= r < self.rooms.len() ==> member_names(
                (#[trigger] self.rooms[r]).members,
            ).no_duplicates()
        &&& forall|c: int|
            0 <= c < self.clients.len() ==> (#[trigger] self.clients[c]).rooms.no_duplicates()
    }

    /// A client has joined a room exactly when the room lists it as a member.
    pub open spec fn memberships_agree(self) -> bool {
        forall|c: int, r: int|
            0 <= c < self.clients.len() && 0 <= r < self.rooms.len() ==> (has_joined(
                #[trigger] self.clients[c],
                (#[trigger] self.rooms[r]).name,
            ) <==> has_member(self.rooms[r], self.clients[c].name))
    }

    /// Every room that a client has joined exists.
    pub open spec fn joined_rooms_exist(self) -> bool {
        forall|c: int, k: int|
            0 <= c < self.clients.len() && 0 <= k < self.clients[c].rooms.len() ==> room_names(
                self.rooms,
            ).contains(#[trigger] self.clients[c].rooms[k])
    }

    /// Every member of a room is a live client, listed with that client's
    /// connection.
    pub open spec fn members_are_clients(self) -> bool {
        forall|r: int, m: int|
            0 <= r < self.rooms.len() && 0 <= m < self.rooms[r].members.len() ==> is_client(
                self.clients,
                #[trigger] self.rooms[r].members[m],
            )
    }

    /// The invariant of the relay.
    pub open spec fn wf(self) -> bool {
        &&& self.nicknames_unique()
        &&& self.room_names_unique()
        &&& self.no_empty_room()
        &&& self.no_repeats()
        &&& self.memberships_agree()
        &&& self.joined_rooms_exist()
        &&& self.members_are_clients()
    }
}

/// IDENTIFY keeps the invariant.
pub proof fn lemma_identify_wf(s: ServerView, from: u64, nick: Seq<char>, raw: Seq<char>)
    requires
        s.wf(),
    ensures
        s.identify(from, nick, raw).state.wf(),
{
    let t = s.identify(from, nick, raw).state;
    lemma_first_index(client_names(s.clients), nick);
    if s.client_named(nick) is None {
        let client = ClientView { name: nick, connection: from, rooms: Seq::empty() };
        assert(t.clients == s.clients.push(client));
        assert(t.rooms == s.rooms);
        let n = s.clients.len() as int;
        assert forall|i: int| 0 <= i < n implies s.clients[i].name != nick by {
            assert(client_names(s.clients)[i] == s.clients[i].name);
        }
        assert(t.nicknames_unique()) by {
            assert forall|i: int, j: int|
                0 <= i < t.clients.len() && 0 <= j < t.clients.len() && i != j implies client_names(
                t.clients,
            )[i] != client_names(t.clients)[j] by {
                if i < n && j < n {
                    assert(client_names(s.clients)[i] != client_names(s.clients)[j]);
                }
            }
        }
        assert(t.no_repeats());
        assert(t.memberships_agree()) by {
            assert forall|c: int, r: int|
                0 <= c < t.clients.len() && 0 <= r < t.rooms.len() implies (has_joined(
                #[trigger] t.clients[c],
                (#[trigger] t.rooms[r]).name,
            ) <==> has_member(t.rooms[r], t.clients[c].name)) by {
                if c < n {
                    assert(t.clients[c] == s.clients[c]);
                } else {
                    if has_member(t.rooms[r], nick) {
                        let m = choose|m: int|
                            0 <= m < member_names(s.rooms[r].members).len() && member_names(
                                s.rooms[r].members,
                            )[m] == nick;
                        assert(is_client(s.clients, s.rooms[r].members[m]));
                        assert(false);
                    }
                }
            }
        }
        assert(t.joined_rooms_exist()) by {
            assert forall|c: int, k: int|
                0 <= c < t.clients.len() && 0 <= k < t.clients[c].rooms.len() implies room_names(
                t.rooms,
            ).contains(#[trigger] t.clients[c].rooms[k]) by {
                assert(t.clients[c] == s.clients[c]);
            }
        }
        assert(t.members_are_clients()) by {
            assert forall|r: int, m: int|
                0 <= r < t.rooms.len() && 0 <= m < t.rooms[r].members.len() implies is_client(
                t.clients,
                #[trigger] t.rooms[r].members[m],
            ) by {
                assert(is_client(s.clients, s.rooms[r].members[m]));
                let c = choose|c: int|
                    0 <= c < s.clients.len() && (#[trigger] s.clients[c]).name
                        == s.rooms[r].members[m].name && s.clients[c].connection
                        == s.rooms[r].members[m].connection;
                assert(t.clients[c] == s.clients[c]);
            }
        }
    }
}

/// Where two lists of clients have the same nicknames and connections, a
/// member that stands for a client of one stands for a client of the other.
pub proof fn lemma_is_client_kept(a: Seq<ClientView>, b: Seq<ClientView>, member: MemberView)
    requires
        a.len() == b.len(),
        forall|c: int|
            0 <= c < a.len() ==> (#[trigger] a[c]).name == b[c].name && a[c].connection
                == b[c].connection,
        is_client(a, member),
    ensures
        is_client(b, member),
{
    let c = choose|c: int|
        0 <= c < a.len() && (#[trigger] a[c]).name == member.name && a[c].connection
            == member.connection;
    assert(b[c].name == member.name);
}

/// JOIN keeps the invariant.
pub proof fn lemma_join_wf(s: ServerView, c: int, room: Seq<char>, raw: Seq<char>, now: nat)
    requires
        s.wf(),
        0 <= c < s.clients.len(),
    ensures
        s.join(c, room, raw, now).state.wf(),
{
    let t = s.join(c, room, raw, now).state;
    let client = s.clients[c];
    let name = client.name;
    let found = s.room_named(room);
    let rn = room_names(s.rooms);
    let cn = client_names(s.clients);
    lemma_first_index(rn, room);
    if found is Some {
        lemma_first_index(member_names(s.rooms[found->0].members), name);
    }
    let already = found is Some && first_index(member_names(s.rooms[found->0].members), name)
        is Some;
    if !already {
        // the client has not joined the room
        lemma_first_index(client.rooms, room);
        if has_joined(client, room) {
            let k = choose|k: int| 0 <= k < client.rooms.len() && client.rooms[k] == room;
            assert(rn.contains(s.clients[c].rooms[k]));
            assert(has_joined(s.clients[c], s.rooms[found->0].name));
            assert(false);
        }
        let member = MemberView { name, connection: client.connection };
        let n = s.rooms.len() as int;
        let at = if found is Some {
            found->0
        } else {
            n
        };
        let before = if found is Some {
            s.rooms[at].members
        } else {
            Seq::<MemberView>::empty()
        };
        if found is None {
            assert(seq![member] =~= before.push(member));
        }
        assert(t.rooms[at].name == room);
        assert(t.rooms[at].members == before.push(member));
        assert(forall|r: int| 0 <= r < n && r != at ==> t.rooms[r] == s.rooms[r]);
        assert(t.clients[c].rooms == client.rooms.push(room));
        assert(t.clients[c].name == name && t.clients[c].connection == client.connection);
        assert(forall|d: int| 0 <= d < s.clients.len() && d != c ==> t.clients[d] == s.clients[d]);
        let tn = room_names(t.rooms);
        assert(client_names(t.clients) =~= cn);
        assert(member_names(before) =~= (if found is Some {
            member_names(s.rooms[at].members)
        } else {
            Seq::<Seq<char>>::empty()
        }));
        assert(!member_names(before).contains(name));
        assert(member_names(before).no_duplicates());
        assert(member_names(t.rooms[at].members) =~= member_names(before).push(name));
        if found is Some {
            assert(tn =~= rn);
        } else {
            assert(tn =~= rn.push(room));
            lemma_push_no_duplicates(rn, room);
        }
        assert(t.room_names_unique());
        assert(t.no_empty_room()) by {
            assert forall|r: int| 0 <= r < t.rooms.len() implies (#[trigger] t.rooms[
                r
            ]).members.len() > 0 by {
                if r != at {
                    assert(t.rooms[r] == s.rooms[r]);
                }
            }
        }
        assert(t.no_repeats()) by {
            lemma_push_no_duplicates(member_names(before), name);
            lemma_push_no_duplicates(client.rooms, room);
            assert forall|r: int| 0 <= r < t.rooms.len() implies member_names(
                (#[trigger] t.rooms[r]).members,
            ).no_duplicates() by {
                if r != at {
                    assert(t.rooms[r] == s.rooms[r]);
                }
            }
            assert forall|d: int| 0 <= d < t.clients.len() implies (#[trigger] t.clients[
                d
            ]).rooms.no_duplicates() by {
                if d != c {
                    assert(t.clients[d] == s.clients[d]);
                }
            }
        }
        assert(t.memberships_agree()) by {
            assert forall|d: int, r: int|
                0 <= d < t.clients.len() && 0 <= r < t.rooms.len() implies (has_joined(
                #[trigger] t.clients[d],
                (#[trigger] t.rooms[r]).name,
            ) <==> has_member(t.rooms[r], t.clients[d].name)) by {
                let other = t.clients[d].name;
                assert(other == cn[d]);
                lemma_push_contains(client.rooms, room, t.rooms[r].name);
                lemma_push_contains(member_names(before), name, other);
                if r == at {
                    if d != c {
                        assert(cn[d] != cn[c]);
                        assert(t.clients[d] == s.clients[d]);
                        if found is Some {
                            assert(has_joined(s.clients[d], s.rooms[r].name) <==> has_member(
                                s.rooms[r],
                                s.clients[d].name,
                            ));
                        } else {
                            if has_joined(s.clients[d], room) {
                                let k = choose|k: int|
                                    0 <= k < s.clients[d].rooms.len() && s.clients[d].rooms[k]
                                        == room;
                                assert(rn.contains(s.clients[d].rooms[k]));
                            }
                        }
                    }
                } else {
                    assert(t.rooms[r] == s.rooms[r]);
                    assert(tn[r] != tn[at]);
                    assert(has_joined(s.clients[d], s.rooms[r].name) <==> has_member(
                        s.rooms[r],
                        s.clients[d].name,
                    ));
                    if d != c {
                        assert(t.clients[d] == s.clients[d]);
                    }
                }
            }
        }
        assert(t.joined_rooms_exist()) by {
            assert forall|d: int, k: int|
                0 <= d < t.clients.len() && 0 <= k < t.clients[d].rooms.len() implies tn.contains(
                #[trigger] t.clients[d].rooms[k],
            ) by {
                let e = t.clients[d].rooms[k];
                if d == c && k == client.rooms.len() {
                    assert(tn[at] == room);
                } else {
                    if d != c {
                        assert(t.clients[d] == s.clients[d]);
                    }
                    assert(e == s.clients[d].rooms[k]);
                    assert(rn.contains(s.clients[d].rooms[k]));
                    let i = choose|i: int| 0 <= i < rn.len() && rn[i] == e;
                    assert(tn[i] == e);
                }
            }
        }
        assert(t.members_are_clients()) by {
            assert forall|r: int, m: int|
                0 <= r < t.rooms.len() && 0 <= m < t.rooms[r].members.len() implies is_client(
                t.clients,
                #[trigger] t.rooms[r].members[m],
            ) by {
                let who = t.rooms[r].members[m];
                if r == at && m == before.len() {
                    assert(who == member);
                    assert(t.clients[c].name == who.name);
                } else {
                    if r != at {
                        assert(t.rooms[r] == s.rooms[r]);
                    }
                    assert(who == s.rooms[r].members[m]);
                    assert(is_client(s.clients, s.rooms[r].members[m]));
                    lemma_is_client_kept(s.clients, t.clients, who);
                }
            }
        }
    }
}

/// Leaving a room keeps the invariant. It changes no client's nickname or
/// connection and no other client's rooms, and it takes the room, if it was
/// there, out of the leaver's rooms.
pub proof fn lemma_leave_wf(s: ServerView, c: int, room: Seq<char>, now: nat)
    requires
        s.wf(),
        0 <= c < s.clients.len(),
    ensures
        s.leave(c, room, now).state.wf(),
        s.leave(c, room, now).state.clients.len() == s.clients.len(),
        forall|d: int|
            0 <= d < s.clients.len() ==> (#[trigger] s.leave(c, room, now).state.clients[d]).name
                == s.clients[d].name && s.leave(c, room, now).state.clients[d].connection
                == s.clients[d].connection,
        !has_joined(s.leave(c, room, now).state.clients[c], room),
        has_joined(s.clients[c], room) ==> s.leave(c, room, now).state.clients[c].rooms.len()
            == s.clients[c].rooms.len() - 1,
{
    let t = s.leave(c, room, now).state;
    let client = s.clients[c];
    let name = client.name;
    let rn = room_names(s.rooms);
    let cn = client_names(s.clients);
    lemma_first_index(client.rooms, room);
    if first_index(client.rooms, room) is Some {
        let k = first_index(client.rooms, room)->0;
        assert(rn.contains(s.clients[c].rooms[k]));
        lemma_first_index(rn, room);
        let r = s.room_named(room)->0;
        assert(s.rooms[r].name == rn[r]);
        assert(has_joined(s.clients[c], s.rooms[r].name));
        assert(has_member(s.rooms[r], s.clients[c].name));
        let before = s.rooms[r].members;
        let mn = member_names(before);
        lemma_first_index(mn, name);
        let m = first_index(mn, name)->0;
        let after = before.remove(m);
        let gone = after.len() == 0;
        assert(member_names(after) =~= mn.remove(m));
        lemma_remove_contains(client.rooms, k, room);
        lemma_remove_contains(mn, m, name);
        lemma_remove_contains(rn, r, room);
        let tn = room_names(t.rooms);
        assert(t.clients == s.clients.update(
            c,
            ClientView { name, connection: client.connection, rooms: client.rooms.remove(k) },
        ));
        assert(client_names(t.clients) =~= cn);
        assert(forall|d: int| 0 <= d < s.clients.len() && d != c ==> t.clients[d] == s.clients[d]);
        if gone {
            assert(t.rooms == s.rooms.remove(r));
            assert(tn =~= rn.remove(r));
            assert(mn.len() == 1);
        } else {
            assert(t.rooms == s.rooms.update(
                r,
                RoomView { name: s.rooms[r].name, members: after },
            ));
            assert(tn =~= rn);
        }
        // every room of the new state is a room of the old one
        assert forall|q: int| 0 <= q < t.rooms.len() implies {
            let o = if gone && q >= r {
                q + 1
            } else {
                q
            };
            &&& 0 <= o < s.rooms.len()
            &&& (#[trigger] t.rooms[q]).name == s.rooms[o].name
            &&& (o != r ==> t.rooms[q] == s.rooms[o])
            &&& (o == r ==> !gone && t.rooms[q].members == after)
        } by {}
        assert(t.no_empty_room()) by {
            assert forall|q: int| 0 <= q < t.rooms.len() implies (#[trigger] t.rooms[
                q
            ]).members.len() > 0 by {
                let o = if gone && q >= r {
                    q + 1
                } else {
                    q
                };
                if o != r {
                    assert(t.rooms[q] == s.rooms[o]);
                }
            }
        }
        assert(t.no_repeats()) by {
            assert forall|q: int| 0 <= q < t.rooms.len() implies member_names(
                (#[trigger] t.rooms[q]).members,
            ).no_duplicates() by {
                let o = if gone && q >= r {
                    q + 1
                } else {
                    q
                };
                if o != r {
                    assert(t.rooms[q] == s.rooms[o]);
                }
            }
            assert forall|d: int| 0 <= d < t.clients.len() implies (#[trigger] t.clients[
                d
            ]).rooms.no_duplicates() by {
                if d != c {
                    assert(t.clients[d] == s.clients[d]);
                }
            }
        }
        assert(t.memberships_agree()) by {
            assert forall|d: int, q: int|
                0 <= d < t.clients.len() && 0 <= q < t.rooms.len() implies (has_joined(
                #[trigger] t.clients[d],
                (#[trigger] t.rooms[q]).name,
            ) <==> has_member(t.rooms[q], t.clients[d].name)) by {
                let o = if gone && q >= r {
                    q + 1
                } else {
                    q
                };
                let other = t.clients[d].name;
                assert(other == cn[d]);
                assert(has_joined(s.clients[d], s.rooms[o].name) <==> has_member(
                    s.rooms[o],
                    s.clients[d].name,
                ));
                lemma_remove_contains(client.rooms, k, s.rooms[o].name);
                lemma_remove_contains(mn, m, other);
                if d != c {
                    assert(t.clients[d] == s.clients[d]);
                    assert(cn[d] != cn[c]);
                }
                if o != r {
                    assert(t.rooms[q] == s.rooms[o]);
                    assert(rn[o] != rn[r]);
                }
            }
        }
        assert(t.joined_rooms_exist()) by {
            assert forall|d: int, j: int|
                0 <= d < t.clients.len() && 0 <= j < t.clients[d].rooms.len() implies tn.contains(
                #[trigger] t.clients[d].rooms[j],
            ) by {
                let e = t.clients[d].rooms[j];
                lemma_remove_contains(rn, r, e);
                if d == c {
                    assert(client.rooms.remove(k).contains(e));
                    lemma_remove_contains(client.rooms, k, e);
                    let i = choose|i: int| 0 <= i < client.rooms.len() && client.rooms[i] == e;
                    assert(rn.contains(s.clients[c].rooms[i]));
                } else {
                    assert(t.clients[d] == s.clients[d]);
                    assert(rn.contains(s.clients[d].rooms[j]));
                    if gone && e == room {
                        assert(has_joined(s.clients[d], s.rooms[r].name));
                        assert(has_member(s.rooms[r], s.clients[d].name));
                        let i = choose|i: int| 0 <= i < mn.len() && mn[i] == s.clients[d].name;
                        assert(cn[d] == cn[c]);
                    }
                }
            }
        }
        assert(t.members_are_clients()) by {
            assert forall|q: int, i: int|
                0 <= q < t.rooms.len() && 0 <= i < t.rooms[q].members.len() implies is_client(
                t.clients,
                #[trigger] t.rooms[q].members[i],
            ) by {
                let o = if gone && q >= r {
                    q + 1
                } else {
                    q
                };
                let who = t.rooms[q].members[i];
                if o != r {
                    assert(t.rooms[q] == s.rooms[o]);
                    assert(is_client(s.clients, s.rooms[o].members[i]));
                } else {
                    let j = if i < m {
                        i
                    } else {
                        i + 1
                    };
                    assert(who == before[j]);
                    assert(is_client(s.clients, s.rooms[r].members[j]));
                }
                lemma_is_client_kept(s.clients, t.clients, who);
            }
        }
    }
}

/// Leaving all rooms keeps the invariant, changes no client's nickname or
/// connection, and leaves the leaver in no room.
pub proof fn lemma_leave_all_wf(s: ServerView, c: int, now: nat)
    requires
        s.wf(),
        0 <= c < s.clients.len(),
    ensures
        s.leave_all(c, now).state.wf(),
        s.leave_all(c, now).state.clients.len() == s.clients.len(),
        forall|d: int|
            0 <= d < s.clients.len() ==> (#[trigger] s.leave_all(c, now).state.clients[d]).name
                == s.clients[d].name && s.leave_all(c, now).state.clients[d].connection
                == s.clients[d].connection,
        s.leave_all(c, now).state.clients[c].rooms.len() == 0,
    decreases s.clients[c].rooms.len(),
{
    if s.clients[c].rooms.len() > 0 {
        let room = s.clients[c].rooms[0];
        assert(has_joined(s.clients[c], room));
        lemma_leave_wf(s, c, room, now);
        let first = s.leave(c, room, now).state;
        lemma_leave_all_wf(first, c, now);
        let last = first.leave_all(c, now).state;
        assert forall|d: int| 0 <= d < s.clients.len() implies (#[trigger] last.clients[d]).name
            == s.clients[d].name && last.clients[d].connection == s.clients[d].connection by {
            assert(first.clients[d].name == s.clients[d].name);
        }
    }
}

/// QUIT keeps the invariant.
pub proof fn lemma_quit_wf(s: ServerView, c: int, raw: Seq<char>, now: nat)
    requires
        s.wf(),
        0 <= c < s.clients.len(),
    ensures
        s.quit(c, raw, now).state.wf(),
{
    lemma_leave_all_wf(s, c, now);
    let u = s.leave_all(c, now).state;
    let t = s.quit(c, raw, now).state;
    let un = client_names(u.clients);
    assert(t.clients == u.clients.remove(c));
    assert(t.rooms == u.rooms);
    assert forall|d: int| 0 <= d < t.clients.len() implies #[trigger] t.clients[d] == u.clients[if d
        < c {
        d
    } else {
        d + 1
    }] by {}
    assert(client_names(t.clients) =~= un.remove(c));
    lemma_remove_contains(un, c, un[c]);
    assert(t.no_repeats()) by {
        assert forall|d: int| 0 <= d < t.clients.len() implies (#[trigger] t.clients[
            d
        ]).rooms.no_duplicates() by {
            let o = if d < c {
                d
            } else {
                d + 1
            };
            assert(t.clients[d] == u.clients[o]);
        }
    }
    assert(t.memberships_agree()) by {
        assert forall|d: int, r: int|
            0 <= d < t.clients.len() && 0 <= r < t.rooms.len() implies (has_joined(
            #[trigger] t.clients[d],
            (#[trigger] t.rooms[r]).name,
        ) <==> has_member(t.rooms[r], t.clients[d].name)) by {
            let o = if d < c {
                d
            } else {
                d + 1
            };
            assert(t.clients[d] == u.clients[o]);
            assert(has_joined(u.clients[o], u.rooms[r].name) <==> has_member(
                u.rooms[r],
                u.clients[o].name,
            ));
        }
    }
    assert(t.joined_rooms_exist()) by {
        assert forall|d: int, k: int|
            0 <= d < t.clients.len() && 0 <= k < t.clients[d].rooms.len() implies room_names(
            t.rooms,
        ).contains(#[trigger] t.clients[d].rooms[k]) by {
            let o = if d < c {
                d
            } else {
                d + 1
            };
            assert(t.clients[d] == u.clients[o]);
            assert(room_names(u.rooms).contains(u.clients[o].rooms[k]));
        }
    }
    assert(t.members_are_clients()) by {
        assert forall|r: int, m: int|
            0 <= r < t.rooms.len() && 0 <= m < t.rooms[r].members.len() implies is_client(
            t.clients,
            #[trigger] t.rooms[r].members[m],
        ) by {
            let who = u.rooms[r].members[m];
            assert(is_client(u.clients, u.rooms[r].members[m]));
            let x = choose|x: int|
                0 <= x < u.clients.len() && (#[trigger] u.clients[x]).name == who.name
                    && u.clients[x].connection == who.connection;
            if x == c {
                assert(member_names(u.rooms[r].members)[m] == who.name);
                assert(has_member(u.rooms[r], u.clients[c].name));
                assert(has_joined(u.clients[c], u.rooms[r].name));
                assert(false);
            }
            let d = if x < c {
                x
            } else {
                x - 1
            };
            assert(t.clients[d] == u.clients[x]);
        }
    }
}

/// Every command of an identified client keeps the invariant.
pub proof fn lemma_command_wf(
    s: ServerView,
    c: int,
    command: CommandView,
    raw: Seq<char>,
    now: nat,
)
    requires
        s.wf(),
        0 <= c < s.clients.len(),
    ensures
        s.command(c, command, raw, now).state.wf(),
{
    match command {
        CommandView::Join(room) => {
            lemma_join_wf(s, c, room, raw, now);
        },
        CommandView::Leave(room) => {
            lemma_leave_wf(s, c, room, now);
        },
        CommandView::Quit => {
            lemma_quit_wf(s, c, raw, now);
        },
        _ => {},
    }
}

/// Every event keeps the invariant.
pub proof fn lemma_step_wf(
    s: ServerView,
    from: u64,
    command: CommandView,
    raw: Seq<char>,
    now: nat,
)
    requires
        s.wf(),
    ensures
        s.step(from, command, raw, now).state.wf(),
{
    match command {
        CommandView::Identify(nick) => {
            lemma_identify_wf(s, from, nick, raw);
        },
        _ => {
            lemma_first_index(client_connections(s.clients), from);
            if s.client_on(from) is Some {
                lemma_command_wf(s, s.client_on(from)->0, command, raw, now);
            }
        },
    }
}

/// An event together with the time at which the relay handled it.
pub struct Arrival {
    pub event: EventView,
    pub now: nat,
}

/// The state of a relay that started with no client and no room and has
/// handled `arrivals`, one after another.
pub open spec fn state_after(arrivals: Seq<Arrival>) -> ServerView
    decreases arrivals.len(),
{
    if arrivals.len() == 0 {
        ServerView::empty()
    } else {
        let a = arrivals.last();
        state_after(arrivals.drop_last()).step(
            a.event.from,
            a.event.command,
            a.event.raw,
            a.now,
        ).state
    }
}

/// Every state that the relay can reach meets the invariant.
pub proof fn lemma_reachable_wf(arrivals: Seq<Arrival>)
    ensures
        state_after(arrivals).wf(),
    decreases arrivals.len(),
{
    if arrivals.len() > 0 {
        let a = arrivals.last();
        lemma_reachable_wf(arrivals.drop_last());
        lemma_step_wf(
            state_after(arrivals.drop_last()),
            a.event.from,
            a.event.command,
            a.event.raw,
            a.now,
        );
    }
}

/// Nickname uniqueness: at any moment no two clients have the same nickname.
pub proof fn lemma_nicknames_unique(arrivals: Seq<Arrival>, i: int, j: int)
    requires
        0 <= i < state_after(arrivals).clients.len(),
        0 <= j < state_after(arrivals).clients.len(),
        i != j,
    ensures
        state_after(arrivals).clients[i].name != state_after(arrivals).clients[j].name,
{
    lemma_reachable_wf(arrivals);
    let names = client_names(state_after(arrivals).clients);
    assert(names[i] != names[j]);
}

/// Membership symmetry: at any moment a client has joined the room called
/// `room` exactly when there is a room of that name that lists the client as a
/// member; and every member of every room is a live client.
pub proof fn lemma_memberships_agree(arrivals: Seq<Arrival>, c: int, room: Seq<char>)
    requires
        0 <= c < state_after(arrivals).clients.len(),
    ensures
        has_joined(state_after(arrivals).clients[c], room) <==> exists|r: int|
            0 <= r < state_after(arrivals).rooms.len() && (#[trigger] state_after(
                arrivals,
            ).rooms[r]).name == room && has_member(
                state_after(arrivals).rooms[r],
                state_after(arrivals).clients[c].name,
            ),
        state_after(arrivals).members_are_clients(),
{
    lemma_reachable_wf(arrivals);
    let s = state_after(arrivals);
    if has_joined(s.clients[c], room) {
        let k = choose|k: int| 0 <= k < s.clients[c].rooms.len() && s.clients[c].rooms[k] == room;
        assert(room_names(s.rooms).contains(s.clients[c].rooms[k]));
        let r = choose|r: int| 0 <= r < room_names(s.rooms).len() && room_names(s.rooms)[r] == room;
        assert(s.rooms[r].name == room);
        assert(has_joined(s.clients[c], s.rooms[r].name));
        assert(has_member(s.rooms[r], s.clients[c].name));
    }
    if exists|r: int|
        0 <= r < s.rooms.len() && (#[trigger] s.rooms[r]).name == room && has_member(
            s.rooms[r],
            s.clients[c].name,
        ) {
        let r = choose|r: int|
            0 <= r < s.rooms.len() && (#[trigger] s.rooms[r]).name == room && has_member(
                s.rooms[r],
                s.clients[c].name,
            );
        assert(has_joined(s.clients[c], s.rooms[r].name));
    }
}

/// No empty rooms: at any moment every room in the table has a member.
pub proof fn lemma_no_empty_room(arrivals: Seq<Arrival>, r: int)
    requires
        0 <= r < state_after(arrivals).rooms.len(),
    ensures
        state_after(arrivals).rooms[r].members.len() > 0,
{
    lemma_reachable_wf(arrivals);
}

/// SAY fan-out: when an identified client says `body` to an existing room,
/// the state stays as it is, each member of the room is sent the same one
/// line, carrying the sender's nickname, the room and the body with code 0,
/// in join order, and nothing else is sent but the acknowledgement to the
/// sender. The members are live clients with distinct nicknames.
pub proof fn lemma_say_fan_out(
    s: ServerView,
    from: u64,
    room: Seq<char>,
    body: Seq<char>,
    raw: Seq<char>,
    now: nat,
)
    requires
        s.wf(),
        s.client_on(from) is Some,
        s.room_named(room) is Some,
    ensures
        ({
            let out = s.step(from, CommandView::Say(room, body), raw, now);
            let sender = s.clients[s.client_on(from)->0].name;
            let members = s.rooms[s.room_named(room)->0].members;
            let line = message_line(0, sender, now, room, body);
            &&& out.state == s
            &&& out.actions.len() == members.len() + 1
            &&& forall|m: int|
                0 <= m < members.len() ==> #[trigger] out.actions[m] == (ActionView::Send {
                    to: members[m].connection,
                    line,
                })
            &&& out.actions[members.len() as int] == ServerView::acknowledgement(
                from,
                StatusCode::Okay,
                raw,
                now,
            )
            &&& forall|m: int|
                0 <= m < members.len() ==> is_client(s.clients, #[trigger] members[m])
            &&& member_names(members).no_duplicates()
        }),
{
    lemma_first_index(client_connections(s.clients), from);
    lemma_first_index(room_names(s.rooms), room);
    let r = s.room_named(room)->0;
    let members = s.rooms[r].members;
    assert forall|m: int| 0 <= m < members.len() implies is_client(
        s.clients,
        #[trigger] members[m],
    ) by {
        assert(is_client(s.clients, s.rooms[r].members[m]));
    }
}

} // verus!
