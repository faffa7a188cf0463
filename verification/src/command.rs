//! Commands of the line protocol: what a client may ask of the relay, how a
//! line is read as a command, and the canonical line of a command.

use crate::text::{is_word, join, join_words, lemma_words_are_words, split_words, views, words};
use crate::words::{lemma_words_of_join, lemma_words_of_word, lemma_words_spaced};
use vstd::prelude::*;

verus! {

/// A request sent by a client, one per line.
#[derive(Debug, Clone, PartialEq, Eq)]
pub enum Command {
    /// `IDENTIFY nickname`
    Identify(String),
    /// `LIST` or `LIST room`
    List(Option<String>),
    /// `JOIN room`
    Join(String),
    /// `SAY room words of the message`
    Say(String, String),
    /// `WHISPER nickname words of the message`
    Whisper(String, String),
    /// `SHOUT words of the message`
    Shout(String),
    /// `LEAVE room`
    Leave(String),
    /// `QUIT`
    Quit,
    /// A line that is none of the above.
    ParseError,
}

/// The mathematical value of a [`Command`]: the same variants over character
/// sequences.
pub enum CommandView {
    Identify(Seq<char>),
    List(Option<Seq<char>>),
    Join(Seq<char>),
    Say(Seq<char>, Seq<char>),
    Whisper(Seq<char>, Seq<char>),
    Shout(Seq<char>),
    Leave(Seq<char>),
    Quit,
    ParseError,
}

impl View for Command {
    type V = CommandView;

    open spec fn view(&self) -> CommandView {
        match self {
            Command::Identify(nick) => CommandView::Identify(nick@),
            Command::List(None) => CommandView::List(None),
            Command::List(Some(room)) => CommandView::List(Some(room@)),
            Command::Join(room) => CommandView::Join(room@),
            Command::Say(room, body) => CommandView::Say(room@, body@),
            Command::Whisper(nick, body) => CommandView::Whisper(nick@, body@),
            Command::Shout(body) => CommandView::Shout(body@),
            Command::Leave(room) => CommandView::Leave(room@),
            Command::Quit => CommandView::Quit,
            Command::ParseError => CommandView::ParseError,
        }
    }
}

/// The command that a list of words spells. The first word is the verb, in
/// upper case; the others are its arguments. A verb with the wrong number of
/// arguments, an unknown verb and an empty list are all parse errors.
pub open spec fn command_of_words(w: Seq<Seq<char>>) -> CommandView {
    if w.len() == 0 {
        CommandView::ParseError
    } else if w[0] == "IDENTIFY"@ {
        if w.len() == 2 {
            CommandView::Identify(w[1])
        } else {
            CommandView::ParseError
        }
    } else if w[0] == "LIST"@ {
        if w.len() == 1 {
            CommandView::List(None)
        } else if w.len() == 2 {
            CommandView::List(Some(w[1]))
        } else {
            CommandView::ParseError
        }
    } else if w[0] == "JOIN"@ {
        if w.len() == 2 {
            CommandView::Join(w[1])
        } else {
            CommandView::ParseError
        }
    } else if w[0] == "SAY"@ {
        if w.len() >= 3 {
            CommandView::Say(w[1], join(w.skip(2)))
        } else {
            CommandView::ParseError
        }
    } else if w[0] == "WHISPER"@ {
        if w.len() >= 3 {
            CommandView::Whisper(w[1], join(w.skip(2)))
        } else {
            CommandView::ParseError
        }
    } else if w[0] == "SHOUT"@ {
        if w.len() >= 2 {
            CommandView::Shout(join(w.skip(1)))
        } else {
            CommandView::ParseError
        }
    } else if w[0] == "LEAVE"@ {
        if w.len() == 2 {
            CommandView::Leave(w[1])
        } else {
            CommandView::ParseError
        }
    } else if w[0] == "QUIT"@ {
        if w.len() == 1 {
            CommandView::Quit
        } else {
            CommandView::ParseError
        }
    } else {
        CommandView::ParseError
    }
}

/// The command that a line spells: the command of its words.
pub open spec fn parse_command(line: Seq<char>) -> CommandView {
    command_of_words(words(line))
}

/// The canonical line of a command: the verb and the arguments with single
/// spaces between them. A parse error has no verb; its line is empty.
pub open spec fn line_of(c: CommandView) -> Seq<char> {
    match c {
        CommandView::Identify(nick) => "IDENTIFY"@ + seq![' '] + nick,
        CommandView::List(None) => "LIST"@,
        CommandView::List(Some(room)) => "LIST"@ + seq![' '] + room,
        CommandView::Join(room) => "JOIN"@ + seq![' '] + room,
        CommandView::Say(room, body) => "SAY"@ + seq![' '] + room + seq![' '] + body,
        CommandView::Whisper(nick, body) => "WHISPER"@ + seq![' '] + nick + seq![' '] + body,
        CommandView::Shout(body) => "SHOUT"@ + seq![' '] + body,
        CommandView::Leave(room) => "LEAVE"@ + seq![' '] + room,
        CommandView::Quit => "QUIT"@,
        CommandView::ParseError => Seq::empty(),
    }
}

/// A message body in normal form: at least one word, with single spaces
/// between the words and none around them.
pub open spec fn is_body(b: Seq<char>) -> bool {
    words(b).len() > 0 && join(words(b)) == b
}

/// A command whose names are words and whose body is in normal form. Every
/// command read from a line is of this kind.
pub open spec fn is_canonical(c: CommandView) -> bool {
    match c {
        CommandView::Identify(nick) => is_word(nick),
        CommandView::List(None) => true,
        CommandView::List(Some(room)) => is_word(room),
        CommandView::Join(room) => is_word(room),
        CommandView::Say(room, body) => is_word(room) && is_body(body),
        CommandView::Whisper(nick, body) => is_word(nick) && is_body(body),
        CommandView::Shout(body) => is_body(body),
        CommandView::Leave(room) => is_word(room),
        CommandView::Quit => true,
        CommandView::ParseError => true,
    }
}

/// Whether `word` is the verb `verb`.
fn is_verb(word: &String, verb: &str) -> (b: bool)
    ensures
        b == (word@ == verb@),
{
    let v: String = String::from_str(verb);
    *word == v
}

impl Command {
    /// Reads a line as a command.
    pub fn new(message: &str) -> (c: Command)
        ensures
            c@ == parse_command(message@),
    {
        let w: Vec<String> = split_words(message);
        let n: usize = w.len();
        proof {
            assert(views(w@).len() == n);
            assert(forall|k: int| 0 <= k < n ==> (#[trigger] w[k])@ == words(message@)[k]);
        }
        if n == 0 {
            Command::ParseError
        } else if is_verb(&w[0], "IDENTIFY") {
            if n == 2 {
                Command::Identify(w[1].clone())
            } else {
                Command::ParseError
            }
        } else if is_verb(&w[0], "LIST") {
            if n == 1 {
                Command::List(None)
            } else if n == 2 {
                Command::List(Some(w[1].clone()))
            } else {
                Command::ParseError
            }
        } else if is_verb(&w[0], "JOIN") {
            if n == 2 {
                Command::Join(w[1].clone())
            } else {
                Command::ParseError
            }
        } else if is_verb(&w[0], "SAY") {
            if n >= 3 {
                Command::Say(w[1].clone(), join_words(&w, 2))
            } else {
                Command::ParseError
            }
        } else if is_verb(&w[0], "WHISPER") {
            if n >= 3 {
                Command::Whisper(w[1].clone(), join_words(&w, 2))
            } else {
                Command::ParseError
            }
        } else if is_verb(&w[0], "SHOUT") {
            if n >= 2 {
                Command::Shout(join_words(&w, 1))
            } else {
                Command::ParseError
            }
        } else if is_verb(&w[0], "LEAVE") {
            if n == 2 {
                Command::Leave(w[1].clone())
            } else {
                Command::ParseError
            }
        } else if is_verb(&w[0], "QUIT") {
            if n == 1 {
                Command::Quit
            } else {
                Command::ParseError
            }
        } else {
            Command::ParseError
        }
    }

    /// Writes the canonical line of the command, without a line terminator.
    pub fn to_line(&self) -> (line: String)
        ensures
            line@ == line_of(self@),
    {
        proof {
            reveal_strlit(" ");
        }
        match self {
            Command::Identify(nick) => {
                let mut line: String = String::from_str("IDENTIFY");
                line.append(" ");
                line.append(nick.as_str());
                line
            },
            Command::List(None) => String::from_str("LIST"),
            Command::List(Some(room)) => {
                let mut line: String = String::from_str("LIST");
                line.append(" ");
                line.append(room.as_str());
                line
            },
            Command::Join(room) => {
                let mut line: String = String::from_str("JOIN");
                line.append(" ");
                line.append(room.as_str());
                line
            },
            Command::Say(room, body) => {
                let mut line: String = String::from_str("SAY");
                line.append(" ");
                line.append(room.as_str());
                line.append(" ");
                line.append(body.as_str());
                line
            },
            Command::Whisper(nick, body) => {
                let mut line: String = String::from_str("WHISPER");
                line.append(" ");
                line.append(nick.as_str());
                line.append(" ");
                line.append(body.as_str());
                line
            },
            Command::Shout(body) => {
                let mut line: String = String::from_str("SHOUT");
                line.append(" ");
                line.append(body.as_str());
                line
            },
            Command::Leave(room) => {
                let mut line: String = String::from_str("LEAVE");
                line.append(" ");
                line.append(room.as_str());
                line
            },
            Command::Quit => String::from_str("QUIT"),
            Command::ParseError => String::new(),
        }
    }
}

/// The verbs are words, and no two of them are the same.
proof fn lemma_verbs()
    ensures
        is_word("IDENTIFY"@),
        is_word("LIST"@),
        is_word("JOIN"@),
        is_word("SAY"@),
        is_word("WHISPER"@),
        is_word("SHOUT"@),
        is_word("LEAVE"@),
        is_word("QUIT"@),
        "IDENTIFY"@.len() == 8,
        "LIST"@.len() == 4 && "LIST"@[1] == 'I',
        "JOIN"@.len() == 4 && "JOIN"@[1] == 'O',
        "SAY"@.len() == 3,
        "WHISPER"@.len() == 7,
        "SHOUT"@.len() == 5 && "SHOUT"@[0] == 'S',
        "LEAVE"@.len() == 5 && "LEAVE"@[0] == 'L',
        "QUIT"@.len() == 4 && "QUIT"@[1] == 'U',
{
    reveal_strlit("IDENTIFY");
    reveal_strlit("LIST");
    reveal_strlit("JOIN");
    reveal_strlit("SAY");
    reveal_strlit("WHISPER");
    reveal_strlit("SHOUT");
    reveal_strlit("LEAVE");
    reveal_strlit("QUIT");
}

/// The words of a verb followed by a space and one word.
proof fn lemma_words_verb_name(verb: Seq<char>, name: Seq<char>)
    requires
        is_word(verb),
        is_word(name),
    ensures
        words(verb + seq![' '] + name) == seq![verb, name],
{
    lemma_words_spaced(verb, name);
    lemma_words_of_word(verb);
    lemma_words_of_word(name);
    assert(seq![verb] + seq![name] =~= seq![verb, name]);
}

/// Every command read from a line is canonical: its names are words and its
/// body is in normal form.
pub proof fn lemma_parse_is_canonical(line: Seq<char>)
    ensures
        is_canonical(parse_command(line)),
{
    let w = words(line);
    lemma_words_are_words(line);
    if w.len() >= 2 {
        lemma_words_of_join(w.skip(1));
        if w.len() >= 3 {
            lemma_words_of_join(w.skip(2));
        }
    }
}

/// Reading the canonical line of a canonical command gives the command back.
pub proof fn lemma_read_back(c: CommandView)
    requires
        is_canonical(c),
    ensures
        parse_command(line_of(c)) == c,
{
    lemma_verbs();
    match c {
        CommandView::Identify(nick) => {
            lemma_words_verb_name("IDENTIFY"@, nick);
        },
        CommandView::List(None) => {
            lemma_words_of_word("LIST"@);
        },
        CommandView::List(Some(room)) => {
            lemma_words_verb_name("LIST"@, room);
        },
        CommandView::Join(room) => {
            lemma_words_verb_name("JOIN"@, room);
        },
        CommandView::Say(room, body) => {
            lemma_words_verb_name("SAY"@, room);
            lemma_words_spaced("SAY"@ + seq![' '] + room, body);
            let w = words(line_of(c));
            assert(w == seq!["SAY"@, room] + words(body));
            assert(w.skip(2) =~= words(body));
        },
        CommandView::Whisper(nick, body) => {
            lemma_words_verb_name("WHISPER"@, nick);
            lemma_words_spaced("WHISPER"@ + seq![' '] + nick, body);
            let w = words(line_of(c));
            assert(w == seq!["WHISPER"@, nick] + words(body));
            assert(w.skip(2) =~= words(body));
        },
        CommandView::Shout(body) => {
            lemma_words_of_word("SHOUT"@);
            lemma_words_spaced("SHOUT"@, body);
            let w = words(line_of(c));
            assert(w == seq!["SHOUT"@] + words(body));
            assert(w.skip(1) =~= words(body));
        },
        CommandView::Leave(room) => {
            lemma_words_verb_name("LEAVE"@, room);
        },
        CommandView::Quit => {
            lemma_words_of_word("QUIT"@);
        },
        CommandView::ParseError => {
            assert(words(Seq::<char>::empty()).len() == 0);
        },
    }
}

/// Round trip: writing the command of a line in canonical form and reading
/// that line gives the same command.
pub proof fn lemma_parse_round_trip(line: Seq<char>)
    ensures
        parse_command(line_of(parse_command(line))) == parse_command(line),
{
    lemma_parse_is_canonical(line);
    lemma_read_back(parse_command(line));
}

} // verus!
