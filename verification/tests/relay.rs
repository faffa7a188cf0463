use srcp::command::Command;
use srcp::server::model::StatusCode;
use srcp::server::{Action, Client, Event, Member, Room, Server};
use srcp::worker::read_event;

const T: u64 = 1700000000;

fn send(to: u64, line: &str) -> Action {
    Action::Send { to, line: line.to_string() }
}

fn run(server: &mut Server, from: u64, text: &str) -> Vec<Action> {
    server.exec(read_event(from, text), T)
}

fn names(list: &[&str]) -> Vec<String> {
    list.iter().map(|w| w.to_string()).collect()
}

/// alice on connection 1 and bob on connection 2, both in the lounge.
fn lounge() -> Server {
    let mut server = Server::new();
    run(&mut server, 1, "IDENTIFY alice\n");
    run(&mut server, 2, "IDENTIFY bob\n");
    run(&mut server, 1, "JOIN lounge\n");
    run(&mut server, 2, "JOIN lounge\n");
    server
}

fn holds_invariant(server: &Server) -> bool {
    let mut ok = true;
    for (i, a) in server.clients.iter().enumerate() {
        for (j, b) in server.clients.iter().enumerate() {
            if i != j && a.name == b.name {
                ok = false;
            }
        }
        for room in &a.rooms {
            let listed = server
                .rooms
                .iter()
                .any(|r| r.name == *room && r.members.iter().any(|m| m.name == a.name));
            if !listed {
                ok = false;
            }
        }
    }
    for room in &server.rooms {
        if room.members.is_empty() {
            ok = false;
        }
        for member in &room.members {
            let joined = server.clients.iter().any(|c| {
                c.name == member.name
                    && c.connection == member.connection
                    && c.rooms.contains(&room.name)
            });
            if !joined {
                ok = false;
            }
        }
    }
    ok
}

#[test]
fn a_new_relay_is_empty() {
    let server = Server::new();
    assert!(server.clients.is_empty());
    assert!(server.rooms.is_empty());
}

#[test]
fn status_codes_have_their_numbers() {
    assert_eq!(StatusCode::Okay.to_usize(), 0);
    assert_eq!(StatusCode::RoomDoesntExist.to_usize(), 1);
    assert_eq!(StatusCode::UserDoesntExist.to_usize(), 2);
    assert_eq!(StatusCode::PoorlyFormedCommand.to_usize(), 3);
    assert_eq!(StatusCode::UsernameUnavailable.to_usize(), 4);
    assert_eq!(StatusCode::AlreadyJoined.to_usize(), 5);
    assert_eq!(StatusCode::Unidentified.to_usize(), 9);
}

#[test]
fn identify_binds_a_nickname() {
    let mut server = Server::new();
    let actions = run(&mut server, 1, "IDENTIFY alice\n");
    assert_eq!(actions, vec![send(1, "0 server 1700000000 server IDENTIFY alice\n")]);
    assert_eq!(
        server.clients,
        vec![Client { name: "alice".to_string(), connection: 1, rooms: vec![] }]
    );
}

#[test]
fn a_nickname_in_use_is_refused() {
    let mut server = Server::new();
    run(&mut server, 1, "IDENTIFY alice\n");
    let before = server.clone();
    let actions = run(&mut server, 2, "IDENTIFY alice\n");
    assert_eq!(actions, vec![send(2, "4 server 1700000000 server IDENTIFY alice\n")]);
    assert_eq!(server, before);
}

#[test]
fn joining_is_announced_to_the_members() {
    let mut server = Server::new();
    run(&mut server, 1, "IDENTIFY alice\n");
    run(&mut server, 2, "IDENTIFY bob\n");
    let first = run(&mut server, 1, "JOIN lounge\n");
    assert_eq!(
        first,
        vec![
            send(1, "0 server 1700000000 lounge alice has joined.\n"),
            send(1, "0 server 1700000000 server JOIN lounge\n"),
        ]
    );
    let second = run(&mut server, 2, "JOIN lounge\n");
    assert_eq!(
        second,
        vec![
            send(1, "0 server 1700000000 lounge bob has joined.\n"),
            send(2, "0 server 1700000000 lounge bob has joined.\n"),
            send(2, "0 server 1700000000 server JOIN lounge\n"),
        ]
    );
    assert_eq!(
        server.rooms,
        vec![Room {
            name: "lounge".to_string(),
            members: vec![
                Member { name: "alice".to_string(), connection: 1 },
                Member { name: "bob".to_string(), connection: 2 },
            ],
        }]
    );
    assert_eq!(server.clients[0].rooms, names(&["lounge"]));
    assert_eq!(server.clients[1].rooms, names(&["lounge"]));
}

#[test]
fn joining_twice_is_refused() {
    let mut server = lounge();
    let before = server.clone();
    let actions = run(&mut server, 1, "JOIN lounge\n");
    assert_eq!(actions, vec![send(1, "5 server 1700000000 server JOIN lounge\n")]);
    assert_eq!(server, before);
}

#[test]
fn say_reaches_every_member_once() {
    let mut server = lounge();
    let before = server.clone();
    let actions = run(&mut server, 1, "SAY lounge hello there\n");
    assert_eq!(
        actions,
        vec![
            send(1, "0 alice 1700000000 lounge hello there\n"),
            send(2, "0 alice 1700000000 lounge hello there\n"),
            send(1, "0 server 1700000000 server SAY lounge hello there\n"),
        ]
    );
    assert_eq!(server, before);
}

#[test]
fn say_reaches_members_only() {
    let mut server = lounge();
    run(&mut server, 3, "IDENTIFY carol\n");
    let actions = run(&mut server, 3, "SAY lounge hi\n");
    assert_eq!(
        actions,
        vec![
            send(1, "0 carol 1700000000 lounge hi\n"),
            send(2, "0 carol 1700000000 lounge hi\n"),
            send(3, "0 server 1700000000 server SAY lounge hi\n"),
        ]
    );
}

#[test]
fn say_to_a_missing_room_is_acknowledged() {
    let mut server = lounge();
    let actions = run(&mut server, 1, "SAY nowhere hello\n");
    assert_eq!(actions, vec![send(1, "0 server 1700000000 server SAY nowhere hello\n")]);
}

#[test]
fn leaving_is_announced_before_the_member_goes() {
    let mut server = lounge();
    let actions = run(&mut server, 2, "LEAVE lounge\n");
    assert_eq!(
        actions,
        vec![
            send(1, "0 server 1700000000 lounge bob has left.\n"),
            send(2, "0 server 1700000000 lounge bob has left.\n"),
            send(2, "0 server 1700000000 server LEAVE lounge\n"),
        ]
    );
    assert_eq!(
        server.rooms,
        vec![Room {
            name: "lounge".to_string(),
            members: vec![Member { name: "alice".to_string(), connection: 1 }],
        }]
    );
    assert!(server.clients[1].rooms.is_empty());
}

#[test]
fn a_room_left_empty_is_deleted() {
    let mut server = lounge();
    run(&mut server, 2, "LEAVE lounge\n");
    let actions = run(&mut server, 1, "LEAVE lounge\n");
    assert_eq!(
        actions,
        vec![
            send(1, "0 server 1700000000 lounge alice has left.\n"),
            send(1, "0 server 1700000000 server LEAVE lounge\n"),
        ]
    );
    assert!(server.rooms.is_empty());
    assert!(server.clients[0].rooms.is_empty());
}

#[test]
fn leaving_a_room_not_joined_does_nothing() {
    let mut server = lounge();
    run(&mut server, 3, "IDENTIFY carol\n");
    let before = server.clone();
    let actions = run(&mut server, 3, "LEAVE lounge\n");
    assert_eq!(actions, vec![send(3, "0 server 1700000000 server LEAVE lounge\n")]);
    assert_eq!(server, before);
}

#[test]
fn commands_before_identify_are_refused() {
    let mut server = lounge();
    let before = server.clone();
    let actions = run(&mut server, 3, "JOIN lounge\n");
    assert_eq!(
        actions,
        vec![send(3, "9 UNIDENTIFIED\n"), Action::ShutdownRead { connection: 3 }]
    );
    assert_eq!(server, before);
    let others =
        ["LIST", "SAY lounge hi", "WHISPER alice hi", "SHOUT hi", "LEAVE lounge", "QUIT", "?"];
    for text in others {
        let actions = run(&mut server, 3, text);
        assert_eq!(
            actions,
            vec![send(3, "9 UNIDENTIFIED\n"), Action::ShutdownRead { connection: 3 }]
        );
    }
    assert_eq!(server, before);
}

#[test]
fn whisper_reaches_the_target_only() {
    let mut server = lounge();
    let actions = run(&mut server, 1, "WHISPER bob psst you\n");
    assert_eq!(
        actions,
        vec![
            send(2, "0 alice 1700000000 bob psst you\n"),
            send(1, "0 server 1700000000 server WHISPER bob psst you\n"),
        ]
    );
}

#[test]
fn whisper_to_a_missing_user_contacts_nobody() {
    let mut server = lounge();
    let before = server.clone();
    let actions = run(&mut server, 1, "WHISPER ghost hi\n");
    assert_eq!(actions, vec![send(1, "2 server 1700000000 server WHISPER ghost hi\n")]);
    assert_eq!(server, before);
}

#[test]
fn shout_reaches_every_room() {
    let mut server = lounge();
    run(&mut server, 3, "IDENTIFY carol\n");
    run(&mut server, 3, "JOIN den\n");
    let actions = run(&mut server, 2, "SHOUT hey all\n");
    assert_eq!(
        actions,
        vec![
            send(1, "0 bob 1700000000 lounge hey all\n"),
            send(2, "0 bob 1700000000 lounge hey all\n"),
            send(3, "0 bob 1700000000 den hey all\n"),
            send(2, "0 server 1700000000 server SHOUT hey all\n"),
        ]
    );
}

#[test]
fn list_names_the_rooms() {
    let mut server = Server::new();
    run(&mut server, 1, "IDENTIFY alice\n");
    run(&mut server, 2, "IDENTIFY bob\n");
    run(&mut server, 1, "JOIN r1\n");
    run(&mut server, 2, "JOIN r2\n");
    let actions = run(&mut server, 1, "LIST\n");
    assert_eq!(actions.len(), 1);
    let line = match &actions[0] {
        Action::Send { to: 1, line } => line.clone(),
        other => panic!("unexpected action {:?}", other),
    };
    let prefix = "0 server 1700000000 server ";
    assert!(line.starts_with(prefix) && line.ends_with('\n'));
    let mut listed: Vec<&str> = line[prefix.len()..].split_whitespace().collect();
    listed.sort();
    assert_eq!(listed, vec!["r1", "r2"]);
}

#[test]
fn list_of_no_rooms_is_empty() {
    let mut server = Server::new();
    run(&mut server, 1, "IDENTIFY alice\n");
    let actions = run(&mut server, 1, "LIST\n");
    assert_eq!(actions, vec![send(1, "0 server 1700000000 server \n")]);
}

#[test]
fn list_names_the_members_of_a_room() {
    let mut server = lounge();
    let actions = run(&mut server, 2, "LIST lounge\n");
    assert_eq!(actions.len(), 1);
    let line = match &actions[0] {
        Action::Send { to: 2, line } => line.clone(),
        other => panic!("unexpected action {:?}", other),
    };
    let prefix = "0 server 1700000000 server ";
    assert!(line.starts_with(prefix) && line.ends_with('\n'));
    let mut listed: Vec<&str> = line[prefix.len()..].split_whitespace().collect();
    listed.sort();
    assert_eq!(listed, vec!["alice", "bob"]);
}

#[test]
fn list_of_a_missing_room_is_an_error() {
    let mut server = lounge();
    let actions = run(&mut server, 1, "LIST nosuch\n");
    assert_eq!(actions, vec![send(1, "1 server 1700000000 server LIST nosuch\n")]);
}

#[test]
fn a_malformed_command_is_answered_with_code_three() {
    let mut server = lounge();
    let before = server.clone();
    assert_eq!(
        run(&mut server, 1, "DANCE wildly\n"),
        vec![send(1, "3 server 1700000000 server DANCE wildly\n")]
    );
    assert_eq!(
        run(&mut server, 1, "JOIN\n"),
        vec![send(1, "3 server 1700000000 server JOIN\n")]
    );
    assert_eq!(server, before);
}

#[test]
fn quit_leaves_every_room_and_closes_the_connection() {
    let mut server = lounge();
    run(&mut server, 1, "JOIN den\n");
    let actions = run(&mut server, 1, "QUIT\n");
    assert_eq!(
        actions,
        vec![
            send(1, "0 server 1700000000 lounge alice has left.\n"),
            send(2, "0 server 1700000000 lounge alice has left.\n"),
            send(1, "0 server 1700000000 den alice has left.\n"),
            Action::ShutdownBoth { connection: 1 },
            send(1, "0 server 1700000000 server QUIT\n"),
        ]
    );
    assert_eq!(
        server.clients,
        vec![Client { name: "bob".to_string(), connection: 2, rooms: names(&["lounge"]) }]
    );
    assert_eq!(
        server.rooms,
        vec![Room {
            name: "lounge".to_string(),
            members: vec![Member { name: "bob".to_string(), connection: 2 }],
        }]
    );
}

#[test]
fn a_nickname_is_free_again_after_quit() {
    let mut server = lounge();
    run(&mut server, 1, "QUIT\n");
    let actions = run(&mut server, 3, "IDENTIFY alice\n");
    assert_eq!(actions, vec![send(3, "0 server 1700000000 server IDENTIFY alice\n")]);
}

#[test]
fn an_event_built_by_hand_is_carried_out() {
    let mut server = Server::new();
    let event = Event {
        from: 7,
        command: Command::Identify("dora".to_string()),
        raw: "IDENTIFY dora".to_string(),
    };
    assert_eq!(server.exec(event, 5), vec![send(7, "0 server 5 server IDENTIFY dora\n")]);
}

#[test]
fn say_addresses_each_of_the_given_members() {
    let members = vec![
        Member { name: "a".to_string(), connection: 4 },
        Member { name: "b".to_string(), connection: 9 },
    ];
    assert_eq!(Server::say(&members, &"x\n".to_string()), vec![send(4, "x\n"), send(9, "x\n")]);
    assert_eq!(Server::say(&Vec::new(), &"x\n".to_string()), Vec::<Action>::new());
}

#[test]
fn on_say_writes_one_line_for_the_room() {
    let server = lounge();
    let actions =
        server.on_say(&"lounge".to_string(), &"zed".to_string(), &"hi there".to_string(), 3);
    assert_eq!(
        actions,
        vec![send(1, "0 zed 3 lounge hi there\n"), send(2, "0 zed 3 lounge hi there\n")]
    );
}

#[test]
fn on_leave_takes_one_client_out_of_one_room() {
    let mut server = lounge();
    let actions = server.on_leave(&"lounge".to_string(), 0, 8);
    assert_eq!(
        actions,
        vec![
            send(1, "0 server 8 lounge alice has left.\n"),
            send(2, "0 server 8 lounge alice has left.\n"),
        ]
    );
    assert!(server.clients[0].rooms.is_empty());
    assert_eq!(server.rooms[0].members, vec![Member { name: "bob".to_string(), connection: 2 }]);
}

#[test]
fn the_invariant_holds_along_a_busy_session() {
    let mut server = Server::new();
    let script: [(u64, &str); 24] = [
        (1, "IDENTIFY alice"),
        (2, "IDENTIFY bob"),
        (3, "IDENTIFY alice"),
        (3, "IDENTIFY carol"),
        (1, "JOIN r1"),
        (2, "JOIN r1"),
        (2, "JOIN r2"),
        (3, "JOIN r2"),
        (3, "JOIN r3"),
        (1, "JOIN r1"),
        (1, "SAY r1 hi"),
        (2, "LEAVE r1"),
        (2, "LEAVE r1"),
        (1, "IDENTIFY alias"),
        (3, "SHOUT hey"),
        (1, "LEAVE r1"),
        (1, "JOIN r3"),
        (3, "QUIT"),
        (4, "JOIN r3"),
        (2, "WHISPER alias psst"),
        (1, "QUIT"),
        (2, "LIST"),
        (2, "QUIT"),
        (2, "LIST"),
    ];
    for (from, text) in script {
        run(&mut server, from, text);
        assert!(holds_invariant(&server), "after {} from {}", text, from);
    }
    assert!(server.rooms.is_empty());
}
