use srcp::client::Server;
use srcp::server::Action;
use srcp::worker::read_event;

fn names(list: &[&str]) -> Vec<String> {
    list.iter().map(|w| w.to_string()).collect()
}

#[test]
fn a_connection_starts_with_the_server_room() {
    let table = Server::new();
    assert_eq!(table.get_rooms(), names(&["server"]));
    assert_eq!(table.get_messages("server"), Some(vec![]));
    assert_eq!(table.get_messages("lounge"), None);
}

#[test]
fn a_message_is_routed_to_its_room() {
    let mut table = Server::new();
    table.receive("0 alice 1700000000 lounge hello");
    assert_eq!(table.get_messages("lounge"), Some(names(&["[22:13] alice: hello"])));
    assert_eq!(table.get_messages("server"), Some(vec![]));
    assert_eq!(table.get_rooms(), names(&["server", "lounge"]));
}

#[test]
fn a_line_that_is_no_message_goes_to_the_server_room() {
    let mut table = Server::new();
    table.receive("9 UNIDENTIFIED\n");
    table.receive("welcome to the relay");
    assert_eq!(
        table.get_messages("server"),
        Some(names(&["9 UNIDENTIFIED", "welcome to the relay"]))
    );
    assert_eq!(table.get_rooms(), names(&["server"]));
}

#[test]
fn an_acknowledgement_is_kept_in_the_server_room() {
    let mut table = Server::new();
    table.receive("0 server 1700000000 server IDENTIFY alice\n");
    assert_eq!(
        table.get_messages("server"),
        Some(names(&["[22:13] server: IDENTIFY alice"]))
    );
}

#[test]
fn a_message_received_twice_is_kept_twice() {
    let mut table = Server::new();
    table.receive("0 alice 1700000000 lounge hello");
    table.receive("0 alice 1700000000 lounge hello");
    assert_eq!(
        table.get_messages("lounge"),
        Some(names(&["[22:13] alice: hello", "[22:13] alice: hello"]))
    );
}

#[test]
fn a_chunk_of_several_lines_is_taken_in_order() {
    let mut table = Server::new();
    table.receive("\n0 alice 60 lounge one\n0 bob 120 lounge two\nnoise\n0 bob 180 den three\n\n");
    assert_eq!(
        table.get_messages("lounge"),
        Some(names(&["[00:01] alice: one", "[00:02] bob: two"]))
    );
    assert_eq!(table.get_messages("den"), Some(names(&["[00:03] bob: three"])));
    assert_eq!(table.get_messages("server"), Some(names(&["noise"])));
    assert_eq!(table.get_rooms(), names(&["server", "lounge", "den"]));
}

#[test]
fn an_empty_chunk_is_one_empty_line() {
    let mut table = Server::new();
    table.receive("  \n ");
    assert_eq!(table.get_messages("server"), Some(names(&[""])));
}

#[test]
fn an_echoed_leave_drops_the_room() {
    let mut table = Server::new();
    table.receive("0 alice 60 lounge hi");
    table.receive("0 server 61 server LEAVE lounge");
    assert_eq!(table.get_messages("lounge"), None);
    assert_eq!(table.get_rooms(), names(&["server"]));
    assert_eq!(
        table.get_messages("server"),
        Some(names(&["[00:01] server: LEAVE lounge"]))
    );
}

#[test]
fn an_echoed_leave_of_an_unknown_room_changes_no_room() {
    let mut table = Server::new();
    table.receive("0 server 61 server LEAVE attic");
    assert_eq!(table.get_rooms(), names(&["server"]));
}

#[test]
fn an_echoed_quit_drops_all_rooms() {
    let mut table = Server::new();
    table.receive("0 alice 60 lounge hi");
    table.receive("0 server 61 server QUIT");
    assert_eq!(table.get_rooms(), Vec::<String>::new());
    assert_eq!(table.get_messages("server"), None);
}

#[test]
fn the_server_room_comes_back_when_it_is_needed() {
    let mut table = Server::new();
    table.receive("0 server 61 server QUIT");
    table.receive("hello again");
    assert_eq!(table.get_messages("server"), Some(names(&["hello again"])));
}

#[test]
fn update_takes_bytes() {
    let mut table = Server::new();
    assert_eq!(table.update(b"0 alice 1700000000 lounge hello\n"), Some(()));
    assert_eq!(table.get_messages("lounge"), Some(names(&["[22:13] alice: hello"])));
}

#[test]
fn update_without_bytes_changes_nothing() {
    let mut table = Server::new();
    let before = table.clone();
    assert_eq!(table.update(b""), None);
    assert_eq!(table, before);
}

#[test]
fn update_replaces_malformed_bytes() {
    let mut table = Server::new();
    assert_eq!(table.update(b"0 al\xffice 60 lounge h\xc3\xa9llo \xf0\x9f\n"), Some(()));
    assert_eq!(
        table.get_messages("lounge"),
        Some(names(&["[00:01] al\u{fffd}ice: h\u{e9}llo \u{fffd}"]))
    );
}

#[test]
fn what_the_relay_sends_is_routed_by_the_client() {
    let mut relay = srcp::server::Server::new();
    relay.exec(read_event(1, "IDENTIFY alice\n"), 60);
    relay.exec(read_event(1, "JOIN lounge\n"), 120);
    let actions = relay.exec(read_event(1, "SAY lounge   hello   there\n"), 1700000000);

    let mut table = Server::new();
    for action in actions {
        if let Action::Send { to: 1, line } = action {
            assert_eq!(table.update(line.as_bytes()), Some(()));
        }
    }
    assert_eq!(table.get_messages("lounge"), Some(names(&["[22:13] alice: hello there"])));
    assert_eq!(
        table.get_messages("server"),
        Some(names(&["[22:13] server: SAY lounge   hello   there"]))
    );
}

#[test]
fn an_acknowledged_leave_drops_the_room_at_the_client() {
    let mut relay = srcp::server::Server::new();
    let mut table = Server::new();
    for (text, now) in [("IDENTIFY alice\n", 60), ("JOIN lounge\n", 120), ("LEAVE lounge\n", 180)] {
        for action in relay.exec(read_event(1, text), now) {
            if let Action::Send { to: 1, line } = action {
                table.update(line.as_bytes());
            }
        }
    }
    assert_eq!(table.get_rooms(), names(&["server"]));
    assert_eq!(
        table.get_messages("server"),
        Some(names(&[
            "[00:01] server: IDENTIFY alice",
            "[00:02] server: JOIN lounge",
            "[00:03] server: LEAVE lounge",
        ]))
    );
}
