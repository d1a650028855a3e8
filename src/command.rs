use vstd::prelude::*;

use crate::text::{
    find_marker, lemma_find_marker_from, marker_at, record_of, strip_line_ending, first_word, has_prefix, marker_position, starts_with, trim, trim_front,
    trim_start, trimmed, word_at_start,
};

verus! {

/// What one received line asks for.
pub enum Command {
    /// `NICK <name>`: the new nickname.
    Nick(String),
    /// `USER <username> ...`: the new username.
    User(String),
    /// `PRIVMSG <target> :<body>`: the body to relay to every connection.
    Privmsg(String),
    /// Any other line.
    Unrecognized,
}

/// The meaning of a `Command`, over character sequences.
pub enum CommandView {
    Nick(Seq<char>),
    User(Seq<char>),
    Privmsg(Seq<char>),
    Unrecognized,
}

impl View for Command {
    type V = CommandView;

    open spec fn view(&self) -> CommandView {
        match self {
            Command::Nick(n) => CommandView::Nick(n@),
            Command::User(u) => CommandView::User(u@),
            Command::Privmsg(b) => CommandView::Privmsg(b@),
            Command::Unrecognized => CommandView::Unrecognized,
        }
    }
}

pub open spec fn nick_prefix() -> Seq<char> {
    seq!['N', 'I', 'C', 'K', ' ']
}

pub open spec fn user_prefix() -> Seq<char> {
    seq!['U', 'S', 'E', 'R', ' ']
}

pub open spec fn privmsg_prefix() -> Seq<char> {
    seq!['P', 'R', 'I', 'V', 'M', 'S', 'G', ' ']
}

/// What `line` asks for. Only the line ending is removed; the prefixes are then
/// matched case-sensitively at the very start of the record.
/// - `NICK `: the rest of the record, trimmed of white space, is the nickname; it
///   may be empty.
/// - `USER `: the second white-space-separated word is the username; without one
///   the record asks for nothing.
/// - `PRIVMSG `: everything after the first `" :"` is the body, verbatim; without
///   that marker the record asks for nothing.
pub open spec fn parse_spec(line: Seq<char>) -> CommandView {
    let rec = record_of(line);
    let rest = rec.subrange(5, rec.len() as int);
    if starts_with(rec, nick_prefix()) {
        CommandView::Nick(trimmed(rest))
    } else if starts_with(rec, user_prefix()) {
        let word = first_word(trim_front(rest));
        if word.len() > 0 {
            CommandView::User(word)
        } else {
            CommandView::Unrecognized
        }
    } else if starts_with(rec, privmsg_prefix()) {
        match find_marker(rec) {
            Some(i) => CommandView::Privmsg(rec.subrange(i + 2, rec.len() as int)),
            None => CommandView::Unrecognized,
        }
    } else {
        CommandView::Unrecognized
    }
}

/// Reads one received line as a command.
pub fn parse_command(line: &str) -> (r: Command)
    ensures
        r@ == parse_spec(line@),
{
    proof {
        reveal_strlit("NICK ");
        reveal_strlit("USER ");
        reveal_strlit("PRIVMSG ");
        assert("NICK "@ =~= nick_prefix());
        assert("USER "@ =~= user_prefix());
        assert("PRIVMSG "@ =~= privmsg_prefix());
    }
    let rec = strip_line_ending(line);
    let n = rec.unicode_len();
    if has_prefix(rec, "NICK ") {
        let name = trim(rec.substring_char(5, n));
        Command::Nick(String::from_str(name))
    } else if has_prefix(rec, "USER ") {
        let word = word_at_start(trim_start(rec.substring_char(5, n)));
        if word.unicode_len() > 0 {
            Command::User(String::from_str(word))
        } else {
            Command::Unrecognized
        }
    } else if has_prefix(rec, "PRIVMSG ") {
        match marker_position(rec) {
            Some(i) => Command::Privmsg(String::from_str(rec.substring_char(i + 2, n))),
            None => Command::Unrecognized,
        }
    } else {
        Command::Unrecognized
    }
}

/// The line `PRIVMSG <target> :<body>\r\n`.
pub open spec fn privmsg_line(target: Seq<char>, body: Seq<char>) -> Seq<char> {
    privmsg_prefix() + target + seq![' ', ':'] + body + seq!['\r', '\n']
}

/// A `PRIVMSG` line carries its body verbatim whatever its target is, provided
/// that the target holds no `" :"` of its own (nor begins with `:`).
pub proof fn lemma_privmsg_body(target: Seq<char>, body: Seq<char>)
    requires
        forall|k: int| 0 <= k < target.len() ==> !#[trigger] marker_at(seq![' '] + target, k),
    ensures
        parse_spec(privmsg_line(target, body)) == CommandView::Privmsg(body),
{
    let line = privmsg_line(target, body);
    let rec = privmsg_prefix() + target + seq![' ', ':'] + body;
    let n = target.len() as int;
    let sp = seq![' '] + target;
    assert(record_of(line) =~= rec);
    assert(rec.len() == 10 + n + body.len());
    assert(rec.subrange(0, 5)[0] != nick_prefix()[0]);
    assert(rec.subrange(0, 5)[0] != user_prefix()[0]);
    assert(rec.subrange(0, 8) =~= privmsg_prefix());
    let sep: int = 8 + n;
    assert(marker_at(rec, sep));
    assert forall|k: int| 0 <= k < sep implies !#[trigger] marker_at(rec, k) by {
        if k < 7 {
            assert(rec[k] == privmsg_prefix()[k]);
        } else if k < 7 + n {
            assert(!marker_at(sp, k - 7));
            assert(rec[k] == sp[k - 7]);
            assert(rec[k + 1] == sp[k - 6]);
        } else {
            assert(rec[k + 1] == ' ');
        }
    }
    lemma_find_marker_from(rec, 0);
    match find_marker(rec) {
        Some(j) => {
            if j > sep {
                assert(!marker_at(rec, sep));
            }
            assert(j == sep);
        },
        None => {
            assert(!marker_at(rec, sep));
        },
    }
    assert(rec.subrange(sep + 2, rec.len() as int) =~= body);
}

} // verus!
