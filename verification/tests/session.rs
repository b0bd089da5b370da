use ma_irc::channel::endpoint::{endpoint_from_parts, UrlHost, UrlParts};
use ma_irc::channel::line::handle_irc_line;
use ma_irc::channel::nick::{did_fallback_nick, joining_irc_nick, nick_candidate};
use ma_irc::channel::session::{
    action_line, check_nick, names_line, privmsg_line, quit_line, IrcSession, Registration,
    RegistrationStep,
};
use ma_irc::channel::{
    parse_irc_line, sanitise_irc_nick, server_endpoint, validate_irc_server_url, IrcBinding,
    IrcEvent,
};
use ma_irc::collections::StringMap;

fn binding() -> IrcBinding {
    IrcBinding {
        server: "irc://127.0.0.1:6667".to_string(),
        channel: "#ma-test".to_string(),
        ..IrcBinding::default()
    }
}

/// The event that a running session makes of a line.
fn event(session: &mut IrcSession, line: &str) -> Option<IrcEvent> {
    let step = session.on_line(line);
    assert!(step.send.is_none());
    assert!(step.answer.is_none());
    step.event
}

#[test]
fn irc_client_registers_with_retry_and_forwards_events() {
    let opening = Registration::open(&binding(), "ma-test").expect("open");
    assert_eq!(opening.endpoint.connect, "127.0.0.1:6667");
    assert!(!opening.endpoint.tls);
    assert_eq!(opening.lines, ["NICK ma-test", "USER ma-test 0 * :ma-test"]);

    // The server rejects the first nick and accepts the suffixed retry.
    let mut registration = opening.registration;
    match registration.on_line(":srv 433 * ma-test :nickname in use") {
        RegistrationStep::Send(line) => assert_eq!(line, "NICK ma-test_"),
        other => panic!("unexpected step {other:?}"),
    }
    let nick = match registration.on_line(":srv 001 ma-test_ :welcome") {
        RegistrationStep::Accepted { nick, lines } => {
            assert_eq!(lines, ["JOIN #ma-test", "NAMES #ma-test"]);
            nick
        }
        other => panic!("unexpected step {other:?}"),
    };
    assert_eq!(nick, "ma-test_");

    let mut session = IrcSession::new("#ma-test", &nick);
    assert_eq!(
        event(&mut session, ":srv 353 ma-test_ = #ma-test :@op +bob ma-test_"),
        None
    );
    assert_eq!(
        event(&mut session, ":srv 366 ma-test_ #ma-test :end of names"),
        Some(IrcEvent::Names {
            nicks: vec!["op".to_string(), "bob".to_string(), "ma-test_".to_string()]
        })
    );
    assert_eq!(
        event(&mut session, ":bob!u@h PRIVMSG #ma-test :hello from bob"),
        Some(IrcEvent::Message {
            nick: "bob".to_string(),
            text: "hello from bob".to_string()
        })
    );
    assert_eq!(
        event(&mut session, ":bob!u@h PRIVMSG #ma-test :\x01ACTION waves\x01"),
        Some(IrcEvent::Action {
            nick: "bob".to_string(),
            text: "waves".to_string()
        })
    );
    assert_eq!(
        event(&mut session, ":carol!u@h JOIN #ma-test"),
        Some(IrcEvent::Joined { nick: "carol".to_string() })
    );
    assert_eq!(
        event(&mut session, ":carol!u@h PART #ma-test :bye"),
        Some(IrcEvent::Parted { nick: "carol".to_string() })
    );
    assert_eq!(
        event(&mut session, ":bob!u@h QUIT :gone"),
        Some(IrcEvent::Quit { nick: "bob".to_string() })
    );
    assert_eq!(
        event(&mut session, ":bob!u@h NICK :robert"),
        Some(IrcEvent::Renamed {
            old: "bob".to_string(),
            new: "robert".to_string()
        })
    );

    assert_eq!(
        privmsg_line("#ma-test", "hello").expect("one line"),
        "PRIVMSG #ma-test :hello"
    );
    assert_eq!(quit_line(), "QUIT :leaving");
}

#[test]
fn registration_sends_the_password_first() {
    let with_pass = IrcBinding { pass: Some("hunter2".to_string()), ..binding() };
    let opening = Registration::open(&with_pass, "  bob ").expect("open");
    assert_eq!(opening.lines, ["PASS hunter2", "NICK bob", "USER bob 0 * :bob"]);
}

#[test]
fn registration_needs_a_binding_and_a_nick() {
    let refused = |binding: &IrcBinding, nick: &str| {
        Registration::open(binding, nick).expect_err("refused").message().to_string()
    };
    assert_eq!(
        refused(&binding(), " "),
        "an IRC nick is required to join the channel"
    );
    let no_channel = IrcBinding { channel: "#".to_string(), ..binding() };
    assert_eq!(
        refused(&no_channel, "bob"),
        "set the IRC channel with :irc-channel #<name>"
    );
    assert_eq!(
        refused(&IrcBinding::default(), "bob"),
        "set the IRC server with :irc-server <irc://host[:port]> or <ircs://host[:port]>"
    );
}

#[test]
fn registration_gives_up_after_a_few_nicks() {
    let mut registration = Registration::open(&binding(), "bob").expect("open").registration;
    let mut tried = vec!["bob".to_string()];
    loop {
        match registration.on_line(":srv 437 * bob :unavailable") {
            RegistrationStep::Send(line) => {
                tried.push(line.strip_prefix("NICK ").expect("nick line").to_string());
            }
            RegistrationStep::Refused(error) => {
                assert_eq!(error.message(), "IRC nick is already in use");
                break;
            }
            other => panic!("unexpected step {other:?}"),
        }
    }
    let mut distinct = tried.clone();
    distinct.dedup();
    assert_eq!(distinct, tried);
    assert_eq!(tried[1], "bob_");
    assert_eq!(tried[2], "bob__");
    assert_eq!(registration.attempts + 1, tried.len());
}

#[test]
fn pings_are_answered_at_any_time() {
    let mut registration = Registration::open(&binding(), "bob").expect("open").registration;
    match registration.on_line("PING :token") {
        RegistrationStep::Send(line) => assert_eq!(line, "PONG :token"),
        other => panic!("unexpected step {other:?}"),
    }
    assert!(matches!(
        registration.on_line(":srv NOTICE * :looking up"),
        RegistrationStep::Wait
    ));
    let mut session = IrcSession::new("#ma-test", "bob");
    assert_eq!(session.on_line("PING abc").send.as_deref(), Some("PONG abc"));
}

#[test]
fn welcome_without_a_nick_keeps_the_one_asked_for() {
    let mut registration = Registration::open(&binding(), "bob").expect("open").registration;
    match registration.on_line(":srv 001") {
        RegistrationStep::Accepted { nick, .. } => assert_eq!(nick, "bob"),
        other => panic!("unexpected step {other:?}"),
    }
}

#[test]
fn confirmed_nick_change_is_answered_and_reported() {
    let mut session = IrcSession::new("#ma-test", "bob");
    assert_eq!(session.request_nick("robert"), "NICK robert");
    // Another user's rename is no answer.
    let other = session.on_line(":carol!u@h NICK :caroline");
    assert!(other.answer.is_none());
    assert!(other.event.is_some());

    let step = session.on_line(":Bob!u@h NICK Robert");
    assert!(matches!(step.answer, Some(Ok(()))));
    assert_eq!(
        step.event,
        Some(IrcEvent::Renamed {
            old: "Bob".to_string(),
            new: "Robert".to_string()
        })
    );
    assert_eq!(session.nick, "robert");
    assert_eq!(session.pending_nick, None);
}

#[test]
fn refused_nick_change_keeps_the_nick() {
    let mut session = IrcSession::new("#ma-test", "bob");
    session.request_nick("op");
    let step = session.on_line(":srv 433 bob op :in use");
    let error = step.answer.expect("answer").expect_err("refusal");
    assert_eq!(error.message(), "IRC nick 'op' is already in use");
    assert_eq!(step.event, None);
    assert_eq!(session.nick, "bob");
    assert_eq!(session.pending_nick, None);
}

#[test]
fn lines_for_other_channels_are_no_events() {
    let mut session = IrcSession::new("#ma-test", "bob");
    assert_eq!(event(&mut session, ":x!u@h PRIVMSG #else :hi"), None);
    assert_eq!(event(&mut session, ":x!u@h PRIVMSG bob :psst"), None);
    assert_eq!(event(&mut session, ":x!u@h JOIN #else"), None);
    assert_eq!(event(&mut session, ":x!u@h PART #else"), None);
    assert_eq!(event(&mut session, ":srv"), None);
    assert_eq!(
        event(&mut session, ":x!u@h JOIN :#MA-TEST"),
        Some(IrcEvent::Joined { nick: "x".to_string() })
    );
}

#[test]
fn unfinished_action_is_a_message() {
    let mut session = IrcSession::new("#ma-test", "bob");
    assert_eq!(
        event(&mut session, ":x!u@h PRIVMSG #ma-test :\x01ACTION waves"),
        Some(IrcEvent::Message {
            nick: "x".to_string(),
            text: "\x01ACTION waves".to_string()
        })
    );
}

#[test]
fn listing_is_collected_and_names_each_nick_once() {
    let mut pending = StringMap::new();
    let mut on_line = |line: &str| {
        let parsed = parse_irc_line(line).expect("line");
        handle_irc_line("#chan", parsed, &mut pending)
    };
    assert_eq!(on_line(":srv 353 me = #chan :@op %half ~own &adm +v @"), None);
    assert_eq!(on_line(":srv 353 me = #chan :OP bob"), None);
    assert_eq!(
        on_line(":srv 366 me #chan :end"),
        Some(IrcEvent::Names {
            nicks: vec![
                "op".to_string(),
                "half".to_string(),
                "own".to_string(),
                "adm".to_string(),
                "v".to_string(),
                "bob".to_string()
            ]
        })
    );
    // A listing of its own begins afterwards.
    assert_eq!(
        on_line(":srv 366 me #chan :end"),
        Some(IrcEvent::Names { nicks: vec![] })
    );
}

#[test]
fn speech_that_is_sent_is_what_others_observe() {
    let mut session = IrcSession::new("#ma-test", "other");
    let said = privmsg_line("#ma-test", "hello: there").expect("one line");
    assert_eq!(
        event(&mut session, &format!(":bob!u@h {said}")),
        Some(IrcEvent::Message {
            nick: "bob".to_string(),
            text: "hello: there".to_string()
        })
    );
    let done = action_line("#ma-test", "waves at all").expect("one line");
    assert_eq!(done, "PRIVMSG #ma-test :\x01ACTION waves at all\x01");
    assert_eq!(
        event(&mut session, &format!(":bob!u@h {done}")),
        Some(IrcEvent::Action {
            nick: "bob".to_string(),
            text: "waves at all".to_string()
        })
    );
}

#[test]
fn speech_is_one_line() {
    for text in ["a\nb", "a\rb"] {
        let error = privmsg_line("#c", text).expect_err("two lines");
        assert_eq!(error.message(), "IRC message must be one line");
        assert!(action_line("#c", text).is_err());
    }
    assert_eq!(names_line("#c"), "NAMES #c");
}

#[test]
fn nick_to_ask_for_is_one_word() {
    assert!(check_nick("bob").is_ok());
    for nick in ["", "b ob", "bob\t"] {
        assert_eq!(
            check_nick(nick).expect_err("not a word").message(),
            "invalid IRC nick"
        );
    }
}

#[test]
fn nick_candidates_differ_and_stay_short() {
    let base = sanitise_irc_nick("abcdefghijklmnopqrstuvwxyz0123456789");
    let candidates: Vec<String> = (0..4).map(|attempt| nick_candidate(&base, attempt)).collect();
    for (i, a) in candidates.iter().enumerate() {
        assert!(a.len() <= base.len());
        for b in &candidates[..i] {
            assert_ne!(a, b);
        }
    }
    assert!(candidates[2].ends_with("__"));
}

#[test]
fn sanitising_twice_changes_nothing() {
    for raw in ["bob smith", "9lives", "-x", "\u{e9}", "a_b[c]"] {
        let once = sanitise_irc_nick(raw);
        assert_eq!(sanitise_irc_nick(&once), once);
    }
}

#[test]
fn joining_nick_is_presented_then_the_rooms_then_the_dids() {
    assert_eq!(joining_irc_nick("alice", "guest", "did:ma:abc"), "alice");
    assert_eq!(joining_irc_nick("{}", "guest", "did:ma:abc"), "guest");
    assert_eq!(joining_irc_nick("", "", "did:ma:abc"), "ma-abc");
    assert_eq!(did_fallback_nick("did:web:x"), "ma-did:web:x");
}

#[test]
fn server_endpoint_names_what_is_wrong() {
    let refused = |server: &str| {
        validate_irc_server_url(server).expect_err("refused").message().to_string()
    };
    assert_eq!(
        refused("  "),
        "set the IRC server with :irc-server <irc://host[:port]> or <ircs://host[:port]>"
    );
    assert_eq!(
        refused("localhost"),
        "IRC server must be a full URL: irc://host[:port] or ircs://host[:port] (got 'localhost')"
    );
    assert!(refused("irc://host:99999").starts_with("invalid IRC server URL 'irc://host:99999': "));
    assert_eq!(refused("irc:///x"), "IRC server URL 'irc:///x' is missing a host");
    assert!(validate_irc_server_url("ircs://irc.example.org").is_ok());
}

#[test]
fn server_endpoint_reads_addresses() {
    let six = server_endpoint("ircs://[::1]").expect("ipv6");
    assert_eq!(six.connect, "[::1]:6697");
    let named = server_endpoint("irc://irc.example.org:7000").expect("domain");
    assert_eq!(named.connect, "irc.example.org:7000");
    assert_eq!(named.sni, "irc.example.org");
}

#[test]
fn endpoint_follows_from_the_parts_of_a_url() {
    let parts = |host: UrlHost, port: Option<u16>| {
        Ok(UrlParts { scheme: "irc".to_string(), host, port })
    };
    let endpoint = endpoint_from_parts("irc://x", parts(UrlHost::Ipv4("10.0.0.1".to_string()), None))
        .expect("endpoint");
    assert_eq!(endpoint.connect, "10.0.0.1:6667");
    assert!(!endpoint.tls);
    assert!(endpoint_from_parts("irc://x", parts(UrlHost::Missing, Some(1))).is_err());
}
