use rustirc::client::Client;
use rustirc::registry::Registry;

fn client(nick: Option<&str>, user: Option<&str>) -> Client {
    Client { nickname: nick.map(|s| s.to_string()), username: user.map(|s| s.to_string()) }
}

#[test]
fn display_name_with_nick_and_user() {
    assert_eq!(client(Some("alice"), Some("aliceuser")).display_name(), "alice!aliceuser");
}

#[test]
fn display_name_with_nick_only() {
    assert_eq!(client(Some("alice"), None).display_name(), "alice");
}

#[test]
fn display_name_with_user_only() {
    assert_eq!(client(None, Some("aliceuser")).display_name(), "aliceuser");
}

#[test]
fn display_name_anonymous() {
    assert_eq!(Client::new().display_name(), "Anonymous");
}

#[test]
fn display_name_keeps_empty_nickname() {
    assert_eq!(client(Some(""), None).display_name(), "");
}

#[test]
fn setters_replace_one_field() {
    let mut c = Client::new();
    c.set_nickname("a".to_string());
    c.set_username("u".to_string());
    c.set_nickname("b".to_string());
    assert_eq!(c.display_name(), "b!u");
}

#[test]
fn display_name_follows_latest_commands() {
    let mut r = Registry::new();
    let a = r.add(Client::new());
    let b = r.add(Client::new());
    assert_eq!(r.display_name(a).unwrap(), "Anonymous");
    r.dispatch(a, "USER first x");
    assert_eq!(r.display_name(a).unwrap(), "first");
    r.dispatch(b, "NICK other");
    r.dispatch(a, "NICK one");
    assert_eq!(r.display_name(a).unwrap(), "one!first");
    r.dispatch(a, "NICK two");
    r.dispatch(b, "USER elsewhere y");
    r.dispatch(a, "USER second y");
    assert_eq!(r.display_name(a).unwrap(), "two!second");
    assert_eq!(r.display_name(b).unwrap(), "other!elsewhere");
}

#[test]
fn empty_nick_record_shows_empty_name() {
    let mut r = Registry::new();
    let a = r.add(Client::new());
    r.dispatch(a, "NICK ");
    assert_eq!(r.display_name(a).unwrap(), "");
    r.dispatch(a, "USER u x\r\n");
    assert_eq!(r.display_name(a).unwrap(), "!u");
}
