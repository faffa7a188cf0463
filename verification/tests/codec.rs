use srcp::command::Command;
use srcp::message::{create_message, Message};
use srcp::text::{
    decimal_string, join_words, parse_usize, split_lines, split_words, trim, two_digit_string,
};

fn owned(words: &[&str]) -> Vec<String> {
    words.iter().map(|w| w.to_string()).collect()
}

#[test]
fn identify_takes_one_name() {
    assert_eq!(Command::new("IDENTIFY alice\n"), Command::Identify("alice".to_string()));
    assert_eq!(Command::new("IDENTIFY"), Command::ParseError);
    assert_eq!(Command::new("IDENTIFY alice bob"), Command::ParseError);
}

#[test]
fn list_takes_at_most_one_room() {
    assert_eq!(Command::new("LIST"), Command::List(None));
    assert_eq!(Command::new("LIST lounge"), Command::List(Some("lounge".to_string())));
    assert_eq!(Command::new("LIST lounge kitchen"), Command::ParseError);
}

#[test]
fn join_and_leave_take_one_room() {
    assert_eq!(Command::new("JOIN lounge"), Command::Join("lounge".to_string()));
    assert_eq!(Command::new("JOIN"), Command::ParseError);
    assert_eq!(Command::new("JOIN a b"), Command::ParseError);
    assert_eq!(Command::new("LEAVE lounge"), Command::Leave("lounge".to_string()));
    assert_eq!(Command::new("LEAVE"), Command::ParseError);
    assert_eq!(Command::new("LEAVE a b"), Command::ParseError);
}

#[test]
fn say_needs_a_room_and_a_body() {
    assert_eq!(
        Command::new("SAY lounge hello there"),
        Command::Say("lounge".to_string(), "hello there".to_string())
    );
    assert_eq!(Command::new("SAY lounge"), Command::ParseError);
    assert_eq!(Command::new("SAY"), Command::ParseError);
}

#[test]
fn say_body_is_joined_with_single_spaces() {
    assert_eq!(
        Command::new("  SAY \t lounge   hello \r\n  there  "),
        Command::Say("lounge".to_string(), "hello there".to_string())
    );
}

#[test]
fn whisper_needs_a_name_and_a_body() {
    assert_eq!(
        Command::new("WHISPER ghost hi"),
        Command::Whisper("ghost".to_string(), "hi".to_string())
    );
    assert_eq!(Command::new("WHISPER ghost"), Command::ParseError);
}

#[test]
fn shout_needs_a_body() {
    assert_eq!(Command::new("SHOUT hey all"), Command::Shout("hey all".to_string()));
    assert_eq!(Command::new("SHOUT"), Command::ParseError);
}

#[test]
fn quit_takes_nothing() {
    assert_eq!(Command::new("QUIT"), Command::Quit);
    assert_eq!(Command::new("QUIT\n"), Command::Quit);
    assert_eq!(Command::new("QUIT now"), Command::ParseError);
}

#[test]
fn unknown_verbs_and_empty_lines_are_parse_errors() {
    assert_eq!(Command::new(""), Command::ParseError);
    assert_eq!(Command::new("   \n"), Command::ParseError);
    assert_eq!(Command::new("DANCE wildly"), Command::ParseError);
    assert_eq!(Command::new("join lounge"), Command::ParseError);
    assert_eq!(Command::new("Quit"), Command::ParseError);
}

#[test]
fn canonical_lines() {
    assert_eq!(Command::Identify("alice".to_string()).to_line(), "IDENTIFY alice");
    assert_eq!(Command::List(None).to_line(), "LIST");
    assert_eq!(Command::List(Some("r1".to_string())).to_line(), "LIST r1");
    assert_eq!(Command::Join("r1".to_string()).to_line(), "JOIN r1");
    assert_eq!(Command::Leave("r1".to_string()).to_line(), "LEAVE r1");
    assert_eq!(Command::Say("r1".to_string(), "a b".to_string()).to_line(), "SAY r1 a b");
    assert_eq!(
        Command::Whisper("bob".to_string(), "a b".to_string()).to_line(),
        "WHISPER bob a b"
    );
    assert_eq!(Command::Shout("a b".to_string()).to_line(), "SHOUT a b");
    assert_eq!(Command::Quit.to_line(), "QUIT");
    assert_eq!(Command::ParseError.to_line(), "");
}

#[test]
fn parsing_the_canonical_line_gives_the_command_back() {
    let lines = [
        "IDENTIFY alice",
        "LIST",
        "LIST lounge",
        "JOIN lounge",
        "LEAVE lounge",
        "  SAY   lounge  hello    there ",
        "WHISPER bob\tpsst  you",
        "SHOUT a  b   c",
        "QUIT",
        "NONSENSE here",
        "",
        "SAY lounge",
    ];
    for line in lines {
        let command = Command::new(line);
        assert_eq!(Command::new(&command.to_line()), command);
    }
}

#[test]
fn words_are_split_at_ascii_whitespace() {
    assert_eq!(split_words(" a\tb\nc\r\nd\x0Ce  "), owned(&["a", "b", "c", "d", "e"]));
    assert_eq!(split_words(""), Vec::<String>::new());
    assert_eq!(split_words(" \t "), Vec::<String>::new());
    assert_eq!(split_words("héllo wörld"), owned(&["héllo", "wörld"]));
    // a no-break space is no ASCII whitespace
    assert_eq!(split_words("a\u{a0}b"), owned(&["a\u{a0}b"]));
}

#[test]
fn words_are_joined_with_single_spaces() {
    let words = owned(&["a", "b", "c"]);
    assert_eq!(join_words(&words, 0), "a b c");
    assert_eq!(join_words(&words, 1), "b c");
    assert_eq!(join_words(&words, 2), "c");
    assert_eq!(join_words(&words, 3), "");
}

#[test]
fn trimming_removes_whitespace_at_both_ends_only() {
    assert_eq!(trim("  a  b \r\n"), "a  b");
    assert_eq!(trim("a"), "a");
    assert_eq!(trim(""), "");
    assert_eq!(trim(" \n\t"), "");
}

#[test]
fn lines_are_split_at_every_line_feed() {
    assert_eq!(split_lines("a\nb"), owned(&["a", "b"]));
    assert_eq!(split_lines("a\n"), owned(&["a", ""]));
    assert_eq!(split_lines(""), owned(&[""]));
    assert_eq!(split_lines("\n\n"), owned(&["", "", ""]));
    assert_eq!(split_lines("a\r\nb"), owned(&["a\r", "b"]));
}

#[test]
fn decimal_numbers_are_read() {
    assert_eq!(parse_usize("0"), Some(0));
    assert_eq!(parse_usize("007"), Some(7));
    assert_eq!(parse_usize("1700000000"), Some(1700000000));
    assert_eq!(parse_usize(&usize::MAX.to_string()), Some(usize::MAX));
}

#[test]
fn what_is_no_decimal_number_is_refused() {
    assert_eq!(parse_usize(""), None);
    assert_eq!(parse_usize("-1"), None);
    assert_eq!(parse_usize("+1"), None);
    assert_eq!(parse_usize("12a"), None);
    assert_eq!(parse_usize("1 2"), None);
    assert_eq!(parse_usize("٣"), None);
}

#[test]
fn numbers_too_large_are_refused() {
    let mut too_large = usize::MAX.to_string();
    too_large.push('0');
    assert_eq!(parse_usize(&too_large), None);
    assert_eq!(parse_usize("340282366920938463463374607431768211456"), None);
}

#[test]
fn decimal_numbers_are_written() {
    assert_eq!(decimal_string(0), "0");
    assert_eq!(decimal_string(9), "9");
    assert_eq!(decimal_string(10), "10");
    assert_eq!(decimal_string(1700000000), "1700000000");
    assert_eq!(decimal_string(u64::MAX), "18446744073709551615");
}

#[test]
fn two_digits_pad_with_a_zero() {
    assert_eq!(two_digit_string(0), "00");
    assert_eq!(two_digit_string(5), "05");
    assert_eq!(two_digit_string(10), "10");
    assert_eq!(two_digit_string(59), "59");
    assert_eq!(two_digit_string(123), "123");
}

#[test]
fn message_line_has_five_fields() {
    assert_eq!(
        create_message(0, "hello there", "alice", "lounge", 1700000000),
        "0 alice 1700000000 lounge hello there\n"
    );
    assert_eq!(
        create_message(4, "IDENTIFY alice", "server", "server", 12),
        "4 server 12 server IDENTIFY alice\n"
    );
}

#[test]
fn a_message_is_read_from_its_line() {
    let m = Message::try_new("0 alice 1700000000 lounge hello").unwrap();
    assert_eq!(
        m,
        Message {
            code: 0,
            sender: "alice".to_string(),
            time: 1700000000,
            room: "lounge".to_string(),
            body: "hello".to_string(),
        }
    );
}

#[test]
fn a_message_body_keeps_its_inner_whitespace() {
    let m = Message::try_new(" 5  bob\t42 den   a  b \t c  \n").unwrap();
    assert_eq!(m.code, 5);
    assert_eq!(m.sender, "bob");
    assert_eq!(m.time, 42);
    assert_eq!(m.room, "den");
    assert_eq!(m.body, "a  b \t c");
}

#[test]
fn a_client_reads_back_what_the_relay_writes() {
    let line = create_message(0, "hello  there", "alice", "lounge", 1700000000);
    let m = Message::try_new(&line).unwrap();
    assert_eq!(m.code, 0);
    assert_eq!(m.sender, "alice");
    assert_eq!(m.time, 1700000000);
    assert_eq!(m.room, "lounge");
    assert_eq!(m.body, "hello  there");
}

#[test]
fn lines_of_another_shape_are_no_messages() {
    assert_eq!(Message::try_new(""), Err(()));
    assert_eq!(Message::try_new("9 UNIDENTIFIED"), Err(()));
    assert_eq!(Message::try_new("0 server 12 server"), Err(()));
    assert_eq!(Message::try_new("0 server 12 server "), Err(()));
    assert_eq!(Message::try_new("zero alice 12 lounge hello"), Err(()));
    assert_eq!(Message::try_new("0 alice noon lounge hello"), Err(()));
    assert_eq!(Message::try_new("-1 alice 12 lounge hello"), Err(()));
    assert_eq!(Message::try_new("hello there, how are you today"), Err(()));
}

#[test]
fn history_entry_shows_utc_hour_and_minute() {
    let m = Message::try_new("0 alice 1700000000 lounge hello").unwrap();
    assert_eq!(m.history_line(), "[22:13] alice: hello");
}

#[test]
fn history_entry_pads_hour_and_minute() {
    let mut m = Message::try_new("0 bob 0 den hi  you").unwrap();
    assert_eq!(m.history_line(), "[00:00] bob: hi  you");
    m.time = 9 * 3600 + 5 * 60 + 59;
    assert_eq!(m.history_line(), "[09:05] bob: hi  you");
    m.time = 86_399;
    assert_eq!(m.history_line(), "[23:59] bob: hi  you");
    m.time = 86_400;
    assert_eq!(m.history_line(), "[00:00] bob: hi  you");
}

#[test]
fn history_entry_of_a_far_future_time() {
    let mut m = Message::try_new("0 bob 0 den hi").unwrap();
    m.time = usize::MAX;
    let secs = (usize::MAX % 86_400) as u64;
    let expected = format!("[{:02}:{:02}] bob: hi", secs / 3600, (secs / 60) % 60);
    assert_eq!(m.history_line(), expected);
}
