use ma_irc::channel::{
    desired_irc_nick, parse_irc_line, sanitise_irc_nick, server_endpoint, ChannelEntryPolicy,
    PresenceRecord, RoomActor,
};

fn as_strs(items: &[String]) -> Vec<&str> {
    items.iter().map(|item| item.as_str()).collect()
}

#[test]
fn server_endpoint_requires_a_full_irc_url() {
    assert!(server_endpoint("localhost:6667").is_err());
    assert!(server_endpoint("127.0.0.1:6667").is_err());
    assert!(server_endpoint("localhost").is_err());
    assert!(server_endpoint("http://localhost:6667").is_err());
}

#[test]
fn server_endpoint_parses_irc_and_ircs_urls() {
    let plain = server_endpoint("irc://localhost").unwrap();
    assert!(!plain.tls);
    assert_eq!(plain.connect, "localhost:6667");
    assert_eq!(plain.sni, "localhost");

    let tls = server_endpoint("ircs://localhost:6697").unwrap();
    assert!(tls.tls);
    assert_eq!(tls.connect, "localhost:6697");
    assert_eq!(tls.sni, "localhost");
}

#[test]
fn sanitise_nick_keeps_legal_chars_and_prefixes_digits() {
    assert_eq!(sanitise_irc_nick("fjodor"), "fjodor");
    assert_eq!(sanitise_irc_nick("123abc"), "_123abc");
    assert_eq!(sanitise_irc_nick("bob smith"), "bobsmith");
    assert_eq!(sanitise_irc_nick("#chan"), "chan");
    assert_eq!(sanitise_irc_nick(""), "_");
    assert_eq!(sanitise_irc_nick("a^b{c}"), "a^b{c}");
}

#[test]
fn desired_nick_prefers_presence_then_did() {
    assert_eq!(desired_irc_nick(Some("fjodor"), "did:ma:abc"), "fjodor");
    let did_nick = desired_irc_nick(None, "did:ma:abc123");
    assert!(did_nick.starts_with("ma-abc123"), "got {did_nick}");
    // A JSON-ish presence ctx counts as no nick.
    assert_eq!(
        desired_irc_nick(Some("{\"kind\":\"h00man\"}"), "did:ma:abc123"),
        did_nick
    );
}

#[test]
fn presence_display_nick_falls_back_to_did_for_json_ctx() {
    let plain = PresenceRecord {
        did: "did:ma:abc".to_string(),
        ctx: "fjodor".to_string(),
    };
    assert_eq!(plain.display_nick(), "fjodor");
    let json = PresenceRecord {
        did: "did:ma:abc".to_string(),
        ctx: "{}".to_string(),
    };
    assert_eq!(json.display_nick(), "did:ma:abc");
}

#[test]
fn irc_line_parser_splits_common_server_forms() {
    let privmsg = parse_irc_line(":bob!user@host PRIVMSG #chan :hello there").unwrap();
    assert_eq!(privmsg.nick.as_deref(), Some("bob"));
    assert_eq!(privmsg.command, "PRIVMSG");
    assert_eq!(privmsg.params, ["#chan"]);
    assert_eq!(privmsg.trailing.as_deref(), Some("hello there"));

    let names = parse_irc_line(":srv 353 ma-test = #chan :@op +reg plain").unwrap();
    assert_eq!(names.command, "353");
    assert_eq!(names.params, ["ma-test", "=", "#chan"]);
    assert_eq!(names.trailing.as_deref(), Some("@op +reg plain"));

    let nick = parse_irc_line(":bob!u@h NICK :newbob").unwrap();
    assert_eq!(nick.nick.as_deref(), Some("bob"));
    assert_eq!(nick.command, "NICK");
    assert_eq!(nick.trailing.as_deref(), Some("newbob"));

    let no_prefix = parse_irc_line("PING :token").unwrap();
    assert_eq!(no_prefix.nick, None);
    assert_eq!(no_prefix.command, "PING");
}

#[test]
fn room_tracks_fakes_and_mirrors_separately() {
    let mut room = RoomActor::new("#room-x", "lounge", ChannelEntryPolicy::open());
    room.enter("did:ma:alice", "alice").expect("enter alice");

    // Alice's session registers: she is a mirror, never a fake.
    room.register_irc_mirror("did:ma:alice", "alice".to_string());
    assert!(!room.observe_irc_join("alice"));
    assert!(room.irc_occupant_nicks().is_empty());

    // A channel user joins: fake list grows once, duplicates are ignored.
    assert!(room.observe_irc_join("bob"));
    assert!(!room.observe_irc_join("bob"));
    assert_eq!(as_strs(&room.irc_occupant_nicks()), ["bob"]);

    // A listing that contains mirrors and fakes keeps fakes only.
    room.sync_irc_occupants(&["alice".to_string(), "bob".to_string(), "carol".to_string()]);
    assert_eq!(as_strs(&room.irc_occupant_nicks()), ["bob", "carol"]);

    // A listing that drops a fake removes it silently.
    room.sync_irc_occupants(&["alice".to_string(), "carol".to_string()]);
    assert_eq!(as_strs(&room.irc_occupant_nicks()), ["carol"]);

    // PART of a fake is reported; PART of a mirror is silent and unregisters.
    assert!(room.observe_irc_part("carol"));
    assert!(!room.observe_irc_part("alice"));
    assert!(!room.irc_has_mirror("did:ma:alice"));
    assert!(room.irc_occupant_nicks().is_empty());
}

#[test]
fn renamed_fake_moves_key_and_reports_both_events() {
    let mut room = RoomActor::new("#room-x", "lounge", ChannelEntryPolicy::open());
    room.observe_irc_join("Bob");
    assert_eq!(as_strs(&room.irc_occupant_nicks()), ["Bob"]);
    let (left, arrived) = room.observe_irc_rename("Bob", "Robert");
    assert!(left);
    assert!(arrived);
    assert_eq!(as_strs(&room.irc_occupant_nicks()), ["Robert"]);

    // A mirror rename updates the mirror nick without fake events.
    room.enter("did:ma:alice", "alice").expect("enter alice");
    room.register_irc_mirror("did:ma:alice", "alice".to_string());
    let (left, arrived) = room.observe_irc_rename("alice", "alice_");
    assert!(!left);
    assert!(!arrived);
    assert_eq!(room.irc_mirror_nick("did:ma:alice"), Some("alice_"));
}
