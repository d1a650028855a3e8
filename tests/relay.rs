use rustirc::client::Client;
use rustirc::registry::{Delivery, Registry};
use rustirc::session::{Event, Phase, Session};

fn lines(d: &[Delivery]) -> Vec<(u64, String)> {
    d.iter().map(|x| (x.to, x.line.clone())).collect()
}

#[test]
fn handles_are_fresh() {
    let mut r = Registry::new();
    let a = r.add(Client::new());
    let b = r.add(Client::new());
    r.remove(a);
    let c = r.add(Client::new());
    assert_eq!((a, b, c), (0, 1, 2));
    assert!(!r.contains(a));
    assert!(r.contains(b) && r.contains(c));
    assert_eq!(r.len(), 2);
}

#[test]
fn removing_absent_connection_is_no_op() {
    let mut r = Registry::new();
    let a = r.add(Client::new());
    r.remove(7);
    assert_eq!(r.len(), 1);
    r.remove(a);
    r.remove(a);
    assert_eq!(r.len(), 0);
    assert!(r.display_name(a).is_none());
}

#[test]
fn removal_matches_handle_not_name() {
    let mut r = Registry::new();
    let a = r.add(Client::new());
    let b = r.add(Client::new());
    r.dispatch(a, "NICK same");
    r.dispatch(b, "NICK same");
    r.remove(a);
    assert!(r.contains(b));
    assert_eq!(lines(&r.broadcast("x", "y")), vec![(b, ":x PRIVMSG same :y\r\n".to_string())]);
}

#[test]
fn broadcast_one_line_per_member() {
    let mut r = Registry::new();
    let ids: Vec<u64> = (0..4).map(|_| r.add(Client::new())).collect();
    let out = r.dispatch(ids[2], "PRIVMSG nobody :hi there");
    assert_eq!(out.len(), 4);
    for (k, d) in out.iter().enumerate() {
        assert_eq!(d.to, ids[k]);
        assert_eq!(d.line, ":Anonymous PRIVMSG Anonymous :hi there\r\n");
    }
}

#[test]
fn two_registered_scenario() {
    let mut r = Registry::new();
    let a = r.add(Client::new());
    let b = r.add(Client::new());
    assert!(r.dispatch(a, "NICK alice").is_empty());
    assert!(r.dispatch(a, "USER aliceuser realname").is_empty());
    assert!(r.dispatch(b, "NICK bob").is_empty());
    let out = r.dispatch(a, "PRIVMSG #chan :hello");
    assert_eq!(
        lines(&out),
        vec![
            (a, ":alice!aliceuser PRIVMSG alice!aliceuser :hello\r\n".to_string()),
            (b, ":alice!aliceuser PRIVMSG bob :hello\r\n".to_string()),
        ]
    );
}

#[test]
fn privmsg_without_marker_sends_nothing() {
    let mut r = Registry::new();
    let a = r.add(Client::new());
    let _b = r.add(Client::new());
    assert!(r.dispatch(a, "PRIVMSG target hello").is_empty());
}

#[test]
fn unregistered_sender_sends_nothing() {
    let mut r = Registry::new();
    let a = r.add(Client::new());
    let _b = r.add(Client::new());
    r.remove(a);
    assert!(r.dispatch(a, "PRIVMSG x :hello").is_empty());
    assert!(r.dispatch(a, "NICK ghost").is_empty());
    assert_eq!(lines(&r.broadcast("s", "m")), vec![(1, ":s PRIVMSG Anonymous :m\r\n".to_string())]);
}

#[test]
fn session_closed_before_any_command() {
    let mut r = Registry::new();
    let (mut other, _) = Session::open(&mut r);
    assert!(other.step(&mut r, Event::WelcomeSent).is_empty());
    let (mut s, welcome) = Session::open(&mut r);
    assert_eq!(welcome, ":rustirc 001 Welcome to Mous' IRC Server\r\n");
    assert!(r.contains(s.id));
    assert!(s.step(&mut r, Event::WelcomeSent).is_empty());
    assert!(s.step(&mut r, Event::StreamEnded).is_empty());
    assert!(s.phase == Phase::Closed);
    assert!(!r.contains(s.id));
    assert_eq!(r.len(), 1);
    let out = other.step(&mut r, Event::Line("PRIVMSG x :still here".to_string()));
    assert_eq!(lines(&out), vec![(other.id, ":Anonymous PRIVMSG Anonymous :still here\r\n".to_string())]);
}

#[test]
fn failed_welcome_deregisters() {
    let mut r = Registry::new();
    let (mut s, _) = Session::open(&mut r);
    assert!(s.phase == Phase::Registered);
    s.step(&mut r, Event::WelcomeFailed);
    assert!(s.phase == Phase::Closed);
    assert_eq!(r.len(), 0);
    assert!(s.step(&mut r, Event::Line("NICK late".to_string())).is_empty());
    assert_eq!(r.len(), 0);
}

#[test]
fn two_senders_both_delivered_to_both() {
    let mut r = Registry::new();
    let (mut s1, _) = Session::open(&mut r);
    let (mut s2, _) = Session::open(&mut r);
    s1.step(&mut r, Event::WelcomeSent);
    s2.step(&mut r, Event::WelcomeSent);
    s1.step(&mut r, Event::Line("NICK one".to_string()));
    s2.step(&mut r, Event::Line("NICK two".to_string()));
    let mut all = lines(&s2.step(&mut r, Event::Line("PRIVMSG a :from two".to_string())));
    all.extend(lines(&s1.step(&mut r, Event::Line("PRIVMSG b :from one".to_string()))));
    for (to, me) in [(s1.id, "one"), (s2.id, "two")] {
        let got: Vec<&String> = all.iter().filter(|(t, _)| *t == to).map(|(_, l)| l).collect();
        assert_eq!(got.len(), 2);
        assert!(got.contains(&&format!(":two PRIVMSG {} :from two\r\n", me)));
        assert!(got.contains(&&format!(":one PRIVMSG {} :from one\r\n", me)));
    }
}

#[test]
fn relayed_body_keeps_trailing_spaces() {
    let mut r = Registry::new();
    let a = r.add(Client::new());
    let out = r.dispatch(a, "PRIVMSG x :hi \r\n");
    assert_eq!(lines(&out), vec![(a, ":Anonymous PRIVMSG Anonymous :hi \r\n".to_string())]);
}
