//! Messages of the relay: the five-field line that the relay sends, how a
//! client reads such a line, and the history entry that a client keeps of it.

use crate::text::{
    chars_of, decimal, decimal_string, is_decimal, is_space, is_span, is_word,
    lemma_decimal_value_of_decimal, lemma_spans_from, lemma_spans_ordered, parse_decimal,
    parse_usize, span_view, spans, two_digit_string, two_digits, word_spans, words,
};
use crate::words::{
    lemma_last_span, lemma_spans_head_body, lemma_spans_trailing_space, lemma_words_of_four,
    lemma_words_trailing_space, shifted,
};
use vstd::prelude::*;

verus! {

/// A line sent by the relay: a status code, who sent it, when (seconds since
/// the Unix epoch), the room it belongs to, and free text.
#[derive(Debug, Clone, PartialEq, Eq)]
pub struct Message {
    pub code: usize,
    pub sender: String,
    pub time: usize,
    pub room: String,
    pub body: String,
}

/// The mathematical value of a [`Message`].
pub struct MessageView {
    pub code: nat,
    pub sender: Seq<char>,
    pub time: nat,
    pub room: Seq<char>,
    pub body: Seq<char>,
}

impl View for Message {
    type V = MessageView;

    open spec fn view(&self) -> MessageView {
        MessageView {
            code: self.code as nat,
            sender: self.sender@,
            time: self.time as nat,
            room: self.room@,
            body: self.body@,
        }
    }
}

/// The text of a message on the wire: the five fields with single spaces
/// between them.
pub open spec fn message_text(
    code: nat,
    sender: Seq<char>,
    time: nat,
    room: Seq<char>,
    body: Seq<char>,
) -> Seq<char> {
    decimal(code) + seq![' '] + sender + seq![' '] + decimal(time) + seq![' '] + room + seq![' ']
        + body
}

/// The line that carries a message: its text, ended by a line feed.
pub open spec fn message_line(
    code: nat,
    sender: Seq<char>,
    time: nat,
    room: Seq<char>,
    body: Seq<char>,
) -> Seq<char> {
    message_text(code, sender, time, room, body) + seq!['\n']
}

/// What a line means as a message. A line of at least five words whose first
/// and third words are decimal numbers that fit a `usize` is a message: the
/// first four words are the code, the sender, the time and the room; the body
/// runs from the start of the fifth word to the end of the last word, with its
/// inner whitespace as it stands. Any other line is no message.
pub open spec fn parse_message(line: Seq<char>) -> Option<MessageView> {
    let sp = spans(line);
    let w = words(line);
    if sp.len() >= 5 && parse_decimal(w[0]) is Some && parse_decimal(w[2]) is Some {
        Some(
            MessageView {
                code: parse_decimal(w[0])->0 as nat,
                sender: w[1],
                time: parse_decimal(w[2])->0 as nat,
                room: w[3],
                body: line.subrange(sp[4].0, sp.last().1),
            },
        )
    } else {
        None
    }
}

/// The hour of the day, in UTC, at `time` seconds since the Unix epoch.
pub open spec fn clock_hour(time: nat) -> nat {
    (time % 86_400) / 3_600
}

/// The minute of the hour at `time` seconds since the Unix epoch.
pub open spec fn clock_minute(time: nat) -> nat {
    ((time % 86_400) / 60) % 60
}

/// The entry that a client keeps of a message: `[HH:MM] sender: body`, with
/// the hour and minute of the message's time in UTC, two digits each.
pub open spec fn history_entry(m: MessageView) -> Seq<char> {
    seq!['['] + two_digits(clock_hour(m.time)) + seq![':'] + two_digits(clock_minute(m.time))
        + seq![']', ' '] + m.sender + seq![':', ' '] + m.body
}

/// Writes the line that carries a message.
pub fn create_message(code: usize, body: &str, from: &str, to_room: &str, time: u64) -> (line:
    String)
    ensures
        line@ == message_line(code as nat, from@, time as nat, to_room@, body@),
{
    proof {
        reveal_strlit(" ");
        reveal_strlit("\n");
    }
    let mut line: String = decimal_string(code as u64);
    line.append(" ");
    line.append(from);
    line.append(" ");
    line.append(decimal_string(time).as_str());
    line.append(" ");
    line.append(to_room);
    line.append(" ");
    line.append(body);
    line.append("\n");
    line
}

/// The hour and minute of the UTC time of day `secs` seconds after midnight.
///
/// Calls chrono's `DateTime::from_timestamp(secs, 0)` and reads `hour()` and
/// `minute()` of the date and time it returns. For a count of seconds within
/// the first day of the epoch chrono builds the date 1970-01-01 with `secs`
/// as the seconds from midnight, so the call returns a value; the hour is then
/// the count of whole minutes divided by sixty, the minute its remainder.
#[verifier::external_body]
fn utc_hour_minute(secs: i64) -> (hm: (u32, u32))
    requires
        0 <= secs < 86_400,
    ensures
        hm.0 == (secs / 60) / 60,
        hm.1 == (secs / 60) % 60,
{
    let at = chrono::DateTime::from_timestamp(secs, 0).unwrap();
    (chrono::Timelike::hour(&at), chrono::Timelike::minute(&at))
}

impl Message {
    /// Reads a line as a message.
    pub fn try_new(s: &str) -> (r: Result<Message, ()>)
        ensures
            match r {
                Ok(m) => parse_message(s@) == Some(m@),
                Err(_) => parse_message(s@) is None,
            },
    {
        let chars: Vec<char> = chars_of(s);
        let sp: Vec<(usize, usize)> = word_spans(&chars);
        let n: usize = sp.len();
        proof {
            assert(span_view(sp@).len() == n);
        }
        if n < 5 {
            return Err(());
        }
        proof {
            lemma_spans_from(s@, 0);
            lemma_spans_ordered(s@, 4, n - 1);
            assert(forall|k: int|
                0 <= k < n ==> span_view(sp@)[k] == (
                    (#[trigger] sp[k]).0 as int,
                    sp[k].1 as int,
                ));
            assert(is_span(s@, 0, spans(s@)[0]));
            assert(is_span(s@, 0, spans(s@)[1]));
            assert(is_span(s@, 0, spans(s@)[2]));
            assert(is_span(s@, 0, spans(s@)[3]));
        }
        let code: usize = match parse_usize(s.substring_char(sp[0].0, sp[0].1)) {
            Some(v) => v,
            None => {
                return Err(());
            },
        };
        let time: usize = match parse_usize(s.substring_char(sp[2].0, sp[2].1)) {
            Some(v) => v,
            None => {
                return Err(());
            },
        };
        let sender: String = String::from_str(s.substring_char(sp[1].0, sp[1].1));
        let room: String = String::from_str(s.substring_char(sp[3].0, sp[3].1));
        let body: String = String::from_str(s.substring_char(sp[4].0, sp[n - 1].1));
        Ok(Message { code, sender, time, room, body })
    }

    /// Writes the entry that a client keeps of this message.
    pub fn history_line(&self) -> (entry: String)
        ensures
            entry@ == history_entry(self@),
    {
        // The hour and the minute depend on the time of day alone, and the
        // calendar has a date for every time of the epoch's first day.
        let day_secs: i64 = (self.time % 86_400) as i64;
        let hm: (u32, u32) = utc_hour_minute(day_secs);
        proof {
            reveal_strlit("[");
            reveal_strlit(":");
            reveal_strlit("] ");
            reveal_strlit(": ");
        }
        let mut entry: String = String::from_str("[");
        entry.append(two_digit_string(hm.0 as u64).as_str());
        entry.append(":");
        entry.append(two_digit_string(hm.1 as u64).as_str());
        entry.append("] ");
        entry.append(self.sender.as_str());
        entry.append(": ");
        entry.append(self.body.as_str());
        proof {
            assert(entry@ =~= history_entry(self@));
        }
        entry
    }
}

/// The decimal writing of a number is a word.
pub proof fn lemma_decimal_is_word(n: nat)
    ensures
        is_word(decimal(n)),
{
    lemma_decimal_value_of_decimal(n);
    assert(is_decimal(decimal(n)));
}

/// A text that the relay may send as a body: not empty, and with no
/// whitespace at either end.
pub open spec fn is_sendable(body: Seq<char>) -> bool {
    body.len() > 0 && !is_space(body[0]) && !is_space(body[body.len() - 1])
}

/// The text of a message whose sender and room are words, whose body has no
/// whitespace at its ends, and whose code and time fit a `usize`, is read as
/// that message.
pub proof fn lemma_message_text_read_back(
    code: nat,
    sender: Seq<char>,
    time: nat,
    room: Seq<char>,
    body: Seq<char>,
)
    requires
        code <= usize::MAX,
        time <= usize::MAX,
        is_word(sender),
        is_word(room),
        is_sendable(body),
    ensures
        parse_message(message_text(code, sender, time, room, body)) == Some(
            MessageView { code, sender, time, room, body },
        ),
{
    let line = message_text(code, sender, time, room, body);
    let c = decimal(code);
    let t = decimal(time);
    let head = c + seq![' '] + sender + seq![' '] + t + seq![' '] + room;
    let n = head.len() as int;
    lemma_decimal_is_word(code);
    lemma_decimal_is_word(time);
    lemma_decimal_value_of_decimal(code);
    lemma_decimal_value_of_decimal(time);
    lemma_words_of_four(c, sender, t, room);
    assert(words(head).len() == 4);
    lemma_spans_head_body(head, body);
    lemma_last_span(body, 0);
    let sb = spans(body);
    let sp = spans(line);
    assert(sb[0].0 == 0);
    assert(sp[4] == shifted(sb, n + 1)[0]);
    assert(sp.last() == shifted(sb, n + 1)[sb.len() - 1]);
    assert(sb.last() == sb[sb.len() - 1]);
    assert(line.subrange(n + 1, n + 1 + body.len()) =~= body);
    assert(words(line)[0] == words(head)[0]);
    assert(words(line)[1] == words(head)[1]);
    assert(words(line)[2] == words(head)[2]);
    assert(words(line)[3] == words(head)[3]);
}

/// Whitespace at the end of a line changes nothing of what the line means as
/// a message.
pub proof fn lemma_parse_message_trailing_space(line: Seq<char>, c: char)
    requires
        is_space(c),
    ensures
        parse_message(line + seq![c]) == parse_message(line),
{
    let closed = line + seq![c];
    lemma_spans_trailing_space(line, c);
    lemma_words_trailing_space(line, c);
    let sp = spans(line);
    if sp.len() >= 5 {
        lemma_spans_ordered(line, 4, sp.len() - 1);
        assert(closed.subrange(sp[4].0, sp.last().1) =~= line.subrange(sp[4].0, sp.last().1));
    }
}

/// A client reads back what the relay wrote: the line of a message whose
/// sender and room are words, whose body has no whitespace at its ends, and
/// whose code and time fit a `usize`, is read as that message.
pub proof fn lemma_message_read_back(
    code: nat,
    sender: Seq<char>,
    time: nat,
    room: Seq<char>,
    body: Seq<char>,
)
    requires
        code <= usize::MAX,
        time <= usize::MAX,
        is_word(sender),
        is_word(room),
        is_sendable(body),
    ensures
        parse_message(message_line(code, sender, time, room, body)) == Some(
            MessageView { code, sender, time, room, body },
        ),
{
    lemma_message_text_read_back(code, sender, time, room, body);
    lemma_parse_message_trailing_space(message_text(code, sender, time, room, body), '\n');
}

} // verus!
