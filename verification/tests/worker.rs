use srcp::command::Command;
use srcp::server::Event;
use srcp::worker::{make_quit, on_read, read_event, Next, ReadError, Reading};

#[test]
fn bytes_become_an_event() {
    let next = on_read(4, Reading::Bytes(b"SAY lounge  hello there\r\n".to_vec()));
    assert_eq!(
        next,
        Next {
            event: Some(Event {
                from: 4,
                command: Command::Say("lounge".to_string(), "hello there".to_string()),
                raw: "SAY lounge  hello there".to_string(),
            }),
            stop: false,
        }
    );
}

#[test]
fn malformed_bytes_are_decoded_leniently() {
    let next = on_read(4, Reading::Bytes(b"IDENTIFY al\xffice\n".to_vec()));
    assert_eq!(
        next.event,
        Some(Event {
            from: 4,
            command: Command::Identify("al\u{fffd}ice".to_string()),
            raw: "IDENTIFY al\u{fffd}ice".to_string(),
        })
    );
    assert!(!next.stop);
}

#[test]
fn the_end_of_the_stream_is_a_quit() {
    let quit = Event { from: 4, command: Command::Quit, raw: "QUIT".to_string() };
    assert_eq!(on_read(4, Reading::Closed), Next { event: Some(quit.clone()), stop: true });
    assert_eq!(make_quit(4), quit);
}

#[test]
fn a_failed_read_is_a_quit() {
    let quit = Event { from: 9, command: Command::Quit, raw: "QUIT".to_string() };
    assert_eq!(
        on_read(9, Reading::Failed(ReadError::Other)),
        Next { event: Some(quit), stop: true }
    );
}

#[test]
fn a_read_that_can_be_retried_changes_nothing() {
    assert_eq!(
        on_read(4, Reading::Failed(ReadError::WouldBlock)),
        Next { event: None, stop: false }
    );
    assert_eq!(
        on_read(4, Reading::Failed(ReadError::Interrupted)),
        Next { event: None, stop: false }
    );
}

#[test]
fn an_event_keeps_the_trimmed_text() {
    let event = read_event(2, "  JOIN   lounge \n");
    assert_eq!(event.from, 2);
    assert_eq!(event.command, Command::Join("lounge".to_string()));
    assert_eq!(event.raw, "JOIN   lounge");
}

#[test]
fn several_commands_in_one_read_are_one_malformed_command() {
    let event = read_event(2, "JOIN a\nJOIN b\n");
    assert_eq!(event.command, Command::ParseError);
}
