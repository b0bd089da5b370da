use ma_irc::channel::{ChannelEntryPolicy, PresenceRecord, RoomActor};
use ma_irc::error::Error;
use ma_irc::root::RootActor;
use ma_irc::rpc_transport::dispatch::{
    decode_request, handle_request, handle_request_at, join_failed, Decision, Effect, Reply,
    Request,
};
use ma_irc::rpc_transport::wire::{
    child_ctx_for_presence, command_input, command_term, irc_fake_actor, parse_term, services,
    traversal_did,
};
use ma_irc::term::{decode_term, encode_term, Fields, Term};
use ma_irc::yaml::render_ctx;

const RUNTIME: &str = "did:ma:rt";
const OWNER: &str = "did:ma:owner";
const ALICE: &str = "did:ma:alice";

fn words(items: &[&str]) -> Term {
    Term::Array(items.iter().map(|item| Term::Text(item.to_string())).collect())
}

fn request_term(from: &str, fragment: &str, term: Term) -> Request {
    Request {
        from: from.to_string(),
        to: format!("{RUNTIME}#{fragment}"),
        fragment: Some(fragment.to_string()),
        term,
    }
}

fn request(from: &str, fragment: &str, items: &[&str]) -> Request {
    request_term(from, fragment, words(items))
}

fn text(term: &Term) -> &str {
    match term {
        Term::Text(text) => text,
        other => panic!("no text: {other:?}"),
    }
}

fn items(term: &Term) -> &Vec<Term> {
    match term {
        Term::Array(items) => items,
        other => panic!("no array: {other:?}"),
    }
}

fn entries(term: &Term) -> &Vec<(Term, Term)> {
    match term {
        Term::Record(entries) => entries,
        other => panic!("no record: {other:?}"),
    }
}

fn field<'a>(term: &'a Term, name: &str) -> Option<&'a Term> {
    entries(term).iter().find(|(key, _)| text(key) == name).map(|(_, value)| value)
}

fn text_field<'a>(term: &'a Term, name: &str) -> &'a str {
    text(field(term, name).expect("field"))
}

fn ask(root: &mut RootActor, request: &Request, bridged: bool) -> Decision {
    handle_request(root, request, RUNTIME, bridged).expect("decision")
}

fn answered(decision: Decision) -> Reply {
    match decision {
        Decision::Answer { effect: Effect::Nothing, reply } => reply,
        other => panic!("no plain answer: {other:?}"),
    }
}

/// The answer `[:ok, text]` or `[:error, text]`.
fn status<'a>(reply: &'a Reply, status: &str) -> &'a str {
    let items = items(&reply.term);
    assert_eq!(text(&items[0]), status, "{items:?}");
    text(&items[1])
}

/// A root with a room that its owner dug, and that room's fragment without `#`.
fn root_with_room() -> (RootActor, String) {
    let mut root = RootActor::new(vec![OWNER.to_string()]);
    root.concourse_command(OWNER, "dig lounge description:soft_chairs").expect("dig");
    let fragment = root.fragment_for("lounge").expect("fragment");
    (root, fragment.trim_start_matches('#').to_string())
}

/// As `root_with_room`, with the room's channel switched on and Alice on it.
fn connected_room() -> (RootActor, String) {
    let (mut root, lounge) = root_with_room();
    for command in [":irc-server irc://127.0.0.1:6667", ":irc-channel #bar", ":irc-connect"] {
        root.room_command(OWNER, "lounge", command).expect("irc command");
    }
    root.enter_entity(ALICE, "lounge", "alice").expect("enter");
    let room = root.entity_mut("lounge").expect("room");
    room.register_irc_mirror(ALICE, "alice".to_string());
    (root, lounge)
}

#[test]
fn requests_are_decoded_from_messages() {
    let payload = encode_term(&words(&[":say", "hi"]), "encoding").expect("encode");
    let content = ma_core::encode_content(0x51, &payload);
    let to = "did:ma:k51qzi5uqu5dj9807pbuod1pplf0vxh8m4lfy3ewl9qbm2s8dsf9ugdf9gedhr#lounge";
    let request = decode_request(ALICE, to, &content).expect("request");
    assert_eq!(request.from, ALICE);
    assert_eq!(request.to, to);
    assert_eq!(request.fragment.as_deref(), Some("lounge"));
    assert_eq!(text(&items(&request.term)[1]), "hi");
}

#[test]
fn undecodable_messages_are_refused() {
    let refused = |to: &str, content: &[u8]| {
        decode_request(ALICE, to, content).expect_err("refused").message().to_string()
    };
    let to = "did:ma:k51qzi5uqu5dj9807pbuod1pplf0vxh8m4lfy3ewl9qbm2s8dsf9ugdf9gedhr";
    assert_eq!(refused("nowhere", &[]), "invalid RPC target did");
    assert_eq!(refused(to, &[]), "decoding RPC multicodec");
    let garbage = ma_core::encode_content(0x51, &[0xff]);
    assert_eq!(refused(to, &garbage), "decoding RPC term");
}

#[test]
fn terms_survive_the_wire() {
    let mut fields = Fields::new();
    fields.put_text("did", ALICE);
    fields.put_int("rev", -7);
    let term = Term::Array(vec![Term::Text(":traverse".to_string()), fields.into_record()]);
    let bytes = encode_term(&term, "encoding").expect("encode");
    // An array of two: a text of nine bytes, then a map of two.
    assert_eq!(bytes[..2], [0x82, 0x69]);
    let back = decode_term(&bytes, "decoding").expect("decode");
    assert_eq!(format!("{back:?}"), format!("{term:?}"));
    assert_eq!(traversal_did(&back).as_deref(), Some(ALICE));

    let opaque = Term::Array(vec![Term::Other]);
    assert_eq!(
        encode_term(&opaque, "encoding reply").expect_err("opaque").message(),
        "encoding reply"
    );
    assert!(encode_term(&Term::Int(i128::MAX), "encoding").is_err());
    assert_eq!(
        decode_term(&[0xff], "decoding term").expect_err("garbage").message(),
        "decoding term"
    );
    assert!(matches!(decode_term(&[0xf5], "decoding"), Ok(Term::Other)));
}

#[test]
fn verb_and_arguments_are_texts() {
    let (verb, args) = parse_term(&Term::Text(":look".to_string())).expect("atom");
    assert_eq!(verb, ":look");
    assert!(args.is_empty());
    let mixed = Term::Array(vec![
        Term::Text(":say".to_string()),
        Term::Int(5),
        Term::Text("hi".to_string()),
        Term::Record(vec![]),
        Term::Text("there".to_string()),
    ]);
    let (verb, args) = parse_term(&mixed).expect("tuple");
    assert_eq!(args, ["hi", "there"]);
    assert_eq!(command_input(&verb, &args), ":say hi there");
    assert_eq!(
        parse_term(&Term::Array(vec![Term::Int(1)])).expect_err("head").message(),
        "invalid RPC tuple head"
    );
    assert_eq!(
        parse_term(&Term::Int(1)).expect_err("atom").message(),
        "invalid RPC term"
    );
}

#[test]
fn traveller_is_the_first_textual_did() {
    let did = || Term::Text("did".to_string());
    let entries = vec![
        (did(), Term::Int(1)),
        (Term::Text("parent".to_string()), Term::Text("x".to_string())),
        (did(), Term::Text("a".to_string())),
        (did(), Term::Text("b".to_string())),
    ];
    let term = Term::Array(vec![Term::Text(":traverse".to_string()), Term::Record(entries)]);
    assert_eq!(traversal_did(&term).as_deref(), Some("a"));
    assert_eq!(traversal_did(&words(&[":traverse"])), None);
    assert_eq!(traversal_did(&words(&[":traverse", "a"])), None);
}

#[test]
fn ping_is_answered_by_the_addressed_actor() {
    let (mut root, _) = root_with_room();
    let atom = || Term::Text(":ping".to_string());
    let reply = answered(ask(&mut root, &request_term(ALICE, "anything", atom()), false));
    assert_eq!(reply.from_actor, "did:ma:rt#anything");
    assert_eq!(text(&reply.term), ":pong");

    let bare = Request {
        from: ALICE.to_string(),
        to: RUNTIME.to_string(),
        fragment: None,
        term: atom(),
    };
    assert_eq!(answered(ask(&mut root, &bare, false)).from_actor, RUNTIME);
}

#[test]
fn unaddressed_requests_are_ignored() {
    let (mut root, _) = root_with_room();
    let bare = Request {
        from: OWNER.to_string(),
        to: RUNTIME.to_string(),
        fragment: None,
        term: words(&[":dig", "attic"]),
    };
    assert!(matches!(ask(&mut root, &bare, false), Decision::Ignore));
    assert_eq!(root.fragment_for("attic"), None);
}

#[test]
fn malformed_requests_are_errors() {
    let (mut root, _) = root_with_room();
    let malformed = request_term(ALICE, "concourse", Term::Int(3));
    let error = handle_request(&mut root, &malformed, RUNTIME, false).expect_err("malformed");
    assert_eq!(error.message(), "invalid RPC term");
}

#[test]
fn concourse_is_entered_under_a_nick() {
    let (mut root, _) = root_with_room();
    let reply = answered(ask(&mut root, &request(ALICE, "concourse", &[":enter", "al"]), false));
    assert_eq!(reply.from_actor, "did:ma:rt#concourse");
    let ok = items(&reply.term);
    assert_eq!(text(&ok[0]), ":ok");
    assert_eq!(text_field(&ok[1], "parent"), "did:ma:rt#concourse");
    assert_eq!(text_field(&ok[1], "nick"), "al");
    assert_eq!(text_field(&ok[1], "name"), "#concourse");
    assert!(matches!(field(&ok[1], "rev"), Some(Term::Int(1))));
    let here = root.room_snapshot("#concourse").expect("concourse").presence;
    assert!(here.iter().any(|record| record.did == ALICE));
}

#[test]
fn dig_creates_a_room_at_the_drawn_address() {
    let (mut root, _) = root_with_room();
    let dig = request(OWNER, "concourse", &[":dig", "attic", "desc:dusty"]);
    let decision = handle_request_at(
        &mut root,
        &dig,
        RUNTIME,
        false,
        "#room-0123456789".to_string(),
        "#exit-0123456789".to_string(),
    )
    .expect("decision");
    let reply = answered(decision);
    let ok = items(&reply.term);
    assert_eq!(text_field(&ok[1], "parent"), "did:ma:rt#room-0123456789");
    assert_eq!(text_field(&ok[1], "name"), "attic");
    assert_eq!(text_field(&ok[1], "description"), "dusty");
    assert_eq!(root.fragment_for("attic").as_deref(), Some("#room-0123456789"));
    assert!(root.find_exit("#exit-0123456789").is_some());
}

#[test]
fn dig_of_a_foreign_room_answers_its_address() {
    let (mut root, _) = root_with_room();
    let rooms = root.entities().len();
    let dig = request(OWNER, "concourse", &[":dig", "portal", "to", "did:ma:other#room-x"]);
    let reply = answered(ask(&mut root, &dig, false));
    let ok = items(&reply.term);
    assert_eq!(text_field(&ok[1], "parent"), "did:ma:other#room-x");
    assert_eq!(text_field(&ok[1], "name"), "portal");
    assert_eq!(root.entities().len(), rooms);
}

#[test]
fn refused_requests_are_answered_with_the_reason() {
    let (mut root, lounge) = root_with_room();
    let before = format!("{root:?}");
    let dig = request(ALICE, "concourse", &[":dig", "attic"]);
    let reply = answered(ask(&mut root, &dig, false));
    assert_eq!(status(&reply, ":error"), "only owners may dig entities");

    let dig = request(ALICE, &lounge, &[":dig", "attic"]);
    let reply = answered(ask(&mut root, &dig, false));
    assert_eq!(reply.from_actor, format!("{RUNTIME}#{lounge}"));
    assert_eq!(status(&reply, ":error"), "only the room owner may dig from this room");

    let owner = request(ALICE, &lounge, &[":owner", ALICE]);
    assert_eq!(items(&answered(ask(&mut root, &owner, false)).term).len(), 2);

    let missing = request(ALICE, "room-nowhere", &[":enter", "al"]);
    let reply = answered(ask(&mut root, &missing, false));
    assert_eq!(text(&items(&reply.term)[0]), ":error");

    let unknown = request(ALICE, "root", &[":dig"]);
    let reply = answered(ask(&mut root, &unknown, false));
    assert_eq!(status(&reply, ":error"), "unsupported #root command ':dig' (try: :enter)");
    assert_eq!(reply.from_actor, "did:ma:rt#root");
    assert_eq!(format!("{root:?}"), before);
}

#[test]
fn locked_room_answers_an_entry_with_the_reason() {
    let (mut root, lounge) = root_with_room();
    root.room_command(OWNER, "lounge", ":prop locked sesame").expect("lock");
    let enter = request(ALICE, &lounge, &[":enter", "al"]);
    let reply = answered(ask(&mut root, &enter, false));
    assert_eq!(status(&reply, ":error"), "room is locked");
    assert!(!root
        .room_snapshot("lounge")
        .expect("room")
        .presence
        .iter()
        .any(|record| record.did == ALICE));
}

#[test]
fn root_enters_the_room_it_is_asked_for() {
    let (mut root, lounge) = root_with_room();
    let enter = request(ALICE, "root", &[":enter", "lounge", "al"]);
    let reply = answered(ask(&mut root, &enter, false));
    let ok = items(&reply.term);
    assert_eq!(text_field(&ok[1], "parent"), format!("{RUNTIME}#{lounge}"));
    assert_eq!(text_field(&ok[1], "nick"), "al");

    let lobby = answered(ask(&mut root, &request(ALICE, "root", &[":enter", " "]), false));
    assert_eq!(text_field(&items(&lobby.term)[1], "parent"), "did:ma:rt#concourse");

    let gone = request(ALICE, "root", &[":enter", "cellar"]);
    assert!(handle_request(&mut root, &gone, RUNTIME, false).is_err());
}

#[test]
fn room_entry_echoes_the_dialed_address() {
    let (mut root, lounge) = root_with_room();
    let reply = answered(ask(&mut root, &request(ALICE, &lounge, &[":enter", "al"]), false));
    let ctx = &items(&reply.term)[1];
    assert_eq!(text_field(ctx, "actor"), ALICE);
    assert_eq!(text_field(ctx, "parent"), format!("{RUNTIME}#{lounge}"));
    assert_eq!(text_field(ctx, "nick"), "al");
    assert_eq!(text_field(ctx, "kind"), "h00man");
    assert_eq!(text_field(ctx, "protocol"), "/ma/agent/0.0.1");

    // Without a nick the DID is the name.
    let reply = answered(ask(&mut root, &request(ALICE, &lounge, &[":enter"]), false));
    assert_eq!(text_field(&items(&reply.term)[1], "name"), ALICE);
}

#[test]
fn look_lists_occupants_exits_and_channel_users_under_full_addresses() {
    let (mut root, lounge) = connected_room();
    root.room_command(OWNER, "lounge", ":owner did:ma:carol").expect("owner");
    let room = root.entity_mut("lounge").expect("room");
    room.add_exit_at("north", "lounge", "#exit-abcdefghij".to_string());
    room.add_exit_at("nowhere", "cellar", "#exit-0123456789".to_string());
    room.observe_irc_join("B*b");

    let reply = answered(ask(&mut root, &request(ALICE, &lounge, &[":look"]), false));
    let ctx = &items(&reply.term)[1];
    assert_eq!(text_field(ctx, "actor"), format!("{RUNTIME}#{lounge}"));
    assert_eq!(text_field(ctx, "parent"), "did:ma:rt#root");
    assert_eq!(text_field(ctx, "owner"), "did:ma:carol");
    assert_eq!(text_field(ctx, "description"), "soft chairs");
    let children = field(ctx, "children").expect("children");
    let child = |address: &str| field(children, address).expect("child");

    assert_eq!(text_field(child(ALICE), "nick"), "alice");
    let north = child("did:ma:rt#exit-abcdefghij");
    assert_eq!(text_field(north, "target-room"), format!("{RUNTIME}#{lounge}"));
    assert_eq!(text_field(north, "description"), "An exit leading north.");
    assert_eq!(text_field(north, "direction"), "north");
    let nowhere = child("did:ma:rt#exit-0123456789");
    assert!(field(nowhere, "target-room").is_none());
    let bob = child("did:ma:rt#irc-b-b");
    assert_eq!(text_field(bob, "nick"), "B*b");
    assert_eq!(text_field(bob, "parent"), format!("{RUNTIME}#{lounge}"));
    for (address, _) in entries(children) {
        assert!(text(address).starts_with("did:"));
    }
}

#[test]
fn exits_answer_traversal_alone() {
    let (mut root, lounge) = root_with_room();
    let exit = {
        let concourse = root.room_snapshot("#concourse").expect("concourse");
        concourse.exits[0].fragment.trim_start_matches('#').to_string()
    };
    let reply = answered(ask(&mut root, &request(ALICE, &exit, &[":traverse"]), false));
    assert_eq!(reply.from_actor, format!("{RUNTIME}#{exit}"));
    let ctx = &items(&reply.term)[1];
    assert_eq!(text_field(ctx, "did"), ALICE);
    assert_eq!(text_field(ctx, "parent"), format!("{RUNTIME}#{lounge}"));
    assert_eq!(text_field(ctx, "exit"), format!("{RUNTIME}#{exit}"));
    assert_eq!(text_field(ctx, "direction"), "lounge");

    let mut fields = Fields::new();
    fields.put_text("did", "did:ma:bob");
    let named = Term::Array(vec![Term::Text(":traverse".to_string()), fields.into_record()]);
    let reply = answered(ask(&mut root, &request_term(ALICE, &exit, named), false));
    assert_eq!(text_field(&items(&reply.term)[1], "did"), "did:ma:bob");

    let reply = answered(ask(&mut root, &request(ALICE, &exit, &[":look"]), false));
    assert_eq!(status(&reply, ":error"), "unknown exit command ':look' (try: :traverse)");
}

#[test]
fn speech_in_a_disconnected_room_is_broadcast() {
    let (mut root, lounge) = root_with_room();
    root.enter_entity(ALICE, "lounge", "alice").expect("enter");
    let say = request(ALICE, &lounge, &[":say", "hi", "all"]);
    match ask(&mut root, &say, false) {
        Decision::Answer {
            effect: Effect::Broadcast { from_actor, term, presence },
            reply,
        } => {
            assert_eq!(status(&reply, ":ok"), "ok");
            assert_eq!(from_actor, format!("{RUNTIME}#{lounge}"));
            assert_eq!(presence.len(), 2);
            let event = items(&term);
            assert_eq!(text(&event[0]), ":say");
            assert_eq!(text_field(&event[1], "nick"), "alice");
            assert_eq!(text(&event[2]), "hi all");
        }
        other => panic!("no broadcast: {other:?}"),
    }

    let say = request("did:ma:outsider", &lounge, &[":emote", "waves"]);
    let reply = answered(ask(&mut root, &say, false));
    assert_eq!(text(&items(&reply.term)[0]), ":error");
}

#[test]
fn speech_in_a_connected_room_goes_to_the_channel() {
    let (mut root, lounge) = connected_room();
    let emote = request(ALICE, &lounge, &[":emote", "waves"]);
    match ask(&mut root, &emote, true) {
        Decision::Answer { effect: Effect::Speak { fragment, did, text, emote }, reply } => {
            assert_eq!(status(&reply, ":ok"), "sent to #bar");
            assert_eq!(fragment, format!("#{lounge}"));
            assert_eq!(did, ALICE);
            assert_eq!(text, "waves");
            assert!(emote);
        }
        other => panic!("not spoken: {other:?}"),
    }
    let reply = answered(ask(&mut root, &request(ALICE, &lounge, &[":say", "x"]), false));
    assert_eq!(
        status(&reply, ":error"),
        "IRC channel is not active in this room; use :irc-connect"
    );
    // The owner is in the room, but not on the channel.
    let reply = answered(ask(&mut root, &request(OWNER, &lounge, &[":say", "x"]), true));
    assert_eq!(
        status(&reply, ":error"),
        "not connected to the IRC channel; use :irc-connect"
    );
}

#[test]
fn switching_the_channel_on_connects_every_occupant() {
    let (mut root, lounge) = root_with_room();
    root.enter_entity(ALICE, "lounge", "alice").expect("enter");
    root.room_command(OWNER, "lounge", ":irc-server ircs://irc.example.org").expect("server");
    root.room_command(OWNER, "lounge", ":irc-channel #bar").expect("channel");
    let connect = request(OWNER, &lounge, &[":irc-connect"]);
    match ask(&mut root, &connect, false) {
        Decision::Answer {
            effect: Effect::ConnectOccupants { fragment, binding, presence },
            ..
        } => {
            assert_eq!(fragment, format!("#{lounge}"));
            assert_eq!(binding.channel, "#bar");
            assert_eq!(presence.len(), 2);
        }
        other => panic!("not connected: {other:?}"),
    }
    let off = request(OWNER, &lounge, &[":irc-disconnect"]);
    match ask(&mut root, &off, true) {
        Decision::Answer { effect: Effect::SwitchOff { fragment }, .. } => {
            assert_eq!(fragment, format!("#{lounge}"));
        }
        other => panic!("not stopped: {other:?}"),
    }
    assert!(root.room_irc_joinable("lounge").is_none());
}

#[test]
fn leaving_disconnects_the_occupant() {
    let (mut root, lounge) = connected_room();
    match ask(&mut root, &request(ALICE, &lounge, &[":leave"]), true) {
        Decision::Answer { effect: Effect::Disconnect { fragment, did }, .. } => {
            assert_eq!(fragment, format!("#{lounge}"));
            assert_eq!(did, ALICE);
        }
        other => panic!("not disconnected: {other:?}"),
    }
}

#[test]
fn deleting_a_room_stops_its_bridge() {
    let (mut root, lounge) = root_with_room();
    match ask(&mut root, &request(OWNER, "concourse", &[":delete", "lounge"]), false) {
        Decision::Answer { effect: Effect::StopBridge { fragment }, .. } => {
            assert_eq!(fragment, format!("#{lounge}"));
        }
        other => panic!("not stopped: {other:?}"),
    }
    assert!(!root.has_room(&format!("#{lounge}")));
    let again = ask(&mut root, &request(OWNER, "concourse", &[":delete", "lounge"]), false);
    assert_eq!(text(&items(&answered(again).term)[0]), ":error");
}

#[test]
fn entry_into_a_connected_room_waits_for_the_join() {
    let (mut root, lounge) = connected_room();
    match ask(&mut root, &request("did:ma:bob", &lounge, &[":enter", "bob"]), true) {
        Decision::Join { room, fragment, binding, did, nick, reply } => {
            assert_eq!(room, format!("#{lounge}"));
            assert_eq!(fragment, format!("#{lounge}"));
            assert_eq!(binding.server, "irc://127.0.0.1:6667");
            assert_eq!(did, "did:ma:bob");
            assert_eq!(nick, "bob");
            assert_eq!(text(&items(&reply.term)[0]), ":ok");
        }
        other => panic!("no join: {other:?}"),
    }
}

#[test]
fn failed_join_undoes_a_first_entry() {
    let (mut root, lounge) = connected_room();
    let room = format!("#{lounge}");
    let before = format!("{root:?}");
    let reply = match ask(&mut root, &request("did:ma:bob", &lounge, &[":enter", "bob"]), true) {
        Decision::Join { reply, .. } => reply,
        other => panic!("no join: {other:?}"),
    };
    assert_ne!(format!("{root:?}"), before);
    let error = Error::of("IRC nick is already in use");
    let (notice, answer) = join_failed(&mut root, RUNTIME, &room, "did:ma:bob", reply, error);
    assert_eq!(format!("{root:?}"), before);
    assert_eq!(status(&answer, ":error"), "IRC nick is already in use");
    assert_eq!(notice.to, "did:ma:bob");
    assert_eq!(notice.from_actor, format!("{RUNTIME}{room}"));
    let event = items(&notice.term);
    assert_eq!(text(&event[0]), ":say");
    assert_eq!(text_field(&event[1], "name"), "lounge");
    assert_eq!(text(&event[2]), "your nick cannot be accepted");
}

#[test]
fn failed_rename_keeps_the_occupant_under_its_nick() {
    let (mut root, lounge) = connected_room();
    let reply = match ask(&mut root, &request(ALICE, &lounge, &[":enter", "queen"]), true) {
        Decision::Join { reply, .. } => reply,
        other => panic!("no join: {other:?}"),
    };
    let error = Error::of("IRC nick 'queen' is already in use");
    let room = format!("#{lounge}");
    join_failed(&mut root, RUNTIME, &room, ALICE, reply, error);
    let snapshot = root.room_snapshot("lounge").expect("room");
    let alice = snapshot.presence.iter().find(|record| record.did == ALICE).expect("alice");
    assert_eq!(alice.ctx, "alice");
}

#[test]
fn every_answer_can_be_encoded() {
    let (mut root, lounge) = connected_room();
    for verb in [":look", ":enter", ":ping", ":say", ":dig", ":nonsense", ":exits", ":help"] {
        for fragment in ["concourse", "root", lounge.as_str(), "room-nowhere"] {
            let decision = handle_request(
                &mut root,
                &request(ALICE, fragment, &[verb, "x"]),
                RUNTIME,
                false,
            );
            let reply = match decision {
                Ok(Decision::Answer { reply, .. }) | Ok(Decision::Join { reply, .. }) => reply,
                Ok(Decision::Ignore) => panic!("ignored"),
                Err(_) => continue,
            };
            encode_term(&reply.term, "encoding reply").expect("sendable reply");
        }
    }
}

#[test]
fn channel_users_have_safe_addresses() {
    assert_eq!(irc_fake_actor(RUNTIME, "Bob[away]"), "did:ma:rt#irc-bob-away-");
    assert_eq!(irc_fake_actor(RUNTIME, "\u{c5}se"), "did:ma:rt#irc--se");
    // The case of a nick makes no difference.
    assert_eq!(irc_fake_actor(RUNTIME, "\u{c5}SE"), irc_fake_actor(RUNTIME, "\u{c5}se"));
    assert_eq!(irc_fake_actor(RUNTIME, "\u{212a}"), "did:ma:rt#irc-k");
    let long = "x".repeat(80);
    assert_eq!(
        irc_fake_actor(RUNTIME, &long),
        format!("did:ma:rt#irc-{}", "x".repeat(48))
    );
}

#[test]
fn presence_is_shown_under_its_nick_on_the_channel() {
    let record = PresenceRecord { did: ALICE.to_string(), ctx: "alice".to_string() };
    let plain = child_ctx_for_presence("did:ma:rt#room-x", &record, None);
    assert_eq!(text_field(&plain, "nick"), "alice");
    let mirrored = child_ctx_for_presence("did:ma:rt#room-x", &record, Some("alice_"));
    assert_eq!(text_field(&mirrored, "nick"), "alice_");
}

#[test]
fn command_results_are_tagged() {
    let ok = command_term(Ok("done".to_string()));
    assert_eq!(format!("{ok:?}"), format!("{:?}", words(&[":ok", "done"])));
    let error = command_term(Err(Error::of("no")));
    assert_eq!(format!("{error:?}"), format!("{:?}", words(&[":error", "no"])));
}

#[test]
fn services_name_the_endpoint_and_the_protocol() {
    assert_eq!(
        services("abc", &["/ma/rpc/0.0.1", "/ma/inbox/0.0.1"]),
        ["/iroh/abc/ma/rpc/0.0.1", "/iroh/abc/ma/inbox/0.0.1"]
    );
}

#[test]
fn room_context_is_rendered_as_yaml() {
    let mut room = RoomActor::new("#room-x", "lounge", ChannelEntryPolicy::open());
    room.add_exit_at("north", "did:ma:x#y", "#exit-a".to_string());
    let text = render_ctx(&room).expect("yaml");
    assert_eq!(
        text,
        "name: lounge\ndescription: ''\nexits:\n- name: north\n  target: did:ma:x#y\n  fragment: '#exit-a'\n"
    );
    room.irc_config_mut().server = "irc://h".to_string();
    room.irc_config_mut().pass = Some("p".to_string());
    let text = render_ctx(&room).expect("yaml");
    assert!(text.contains("irc:\n  server: irc://h\n"));
    assert!(text.contains("  pass: p\n"));
    assert!(!text.contains("net:"));
}
