use vstd::prelude::*;

verus! {

/// The line sent to a connection right after it is registered.
pub const WELCOME: &'static str = ":rustirc 001 Welcome to Mous' IRC Server\r\n";

/// The relayed form of a message with body `body` from `sender`, as delivered to
/// `recipient`: `:<sender> PRIVMSG <recipient> :<body>\r\n`.
pub open spec fn relay_spec(sender: Seq<char>, recipient: Seq<char>, body: Seq<char>) -> Seq<char> {
    seq![':'] + sender + seq![' ', 'P', 'R', 'I', 'V', 'M', 'S', 'G', ' '] + recipient + seq![
        ' ',
        ':',
    ] + body + seq!['\r', '\n']
}

/// The welcome line, as an owned string.
pub fn welcome_line() -> (r: String)
    ensures
        r@ == WELCOME@,
{
    String::from_str(WELCOME)
}

/// Formats the line that relays `body` from `sender` to `recipient`.
pub fn relay_line(sender: &str, recipient: &str, body: &str) -> (r: String)
    ensures
        r@ == relay_spec(sender@, recipient@, body@),
{
    proof {
        reveal_strlit(":");
        reveal_strlit(" PRIVMSG ");
        reveal_strlit(" :");
        reveal_strlit("\r\n");
    }
    let mut r = String::from_str(":");
    r.append(sender);
    r.append(" PRIVMSG ");
    r.append(recipient);
    r.append(" :");
    r.append(body);
    r.append("\r\n");
    assert(r@ =~= relay_spec(sender@, recipient@, body@));
    r
}

} // verus!
