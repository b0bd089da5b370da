use ma_irc::bridge::{
    after_join, bridge_ends, drop_mirror, echo_speech, forget_occupants, handle_event, kick_occupant, plan_join,
    resync, speech_line, switch_off, AfterJoin, JoinPlan, News,
};
use ma_irc::channel::IrcEvent;
use ma_irc::error::Error;
use ma_irc::root::RootActor;
use ma_irc::term::{encode_term, Term};

const RUNTIME: &str = "did:ma:rt";
const OWNER: &str = "did:ma:owner";
const ALICE: &str = "did:ma:alice";

/// A connected room with Alice on its channel, and the room's fragment.
fn connected_room() -> (RootActor, String) {
    let mut root = RootActor::new(vec![OWNER.to_string()]);
    root.concourse_command(OWNER, "dig lounge").expect("dig");
    for command in [":irc-server irc://127.0.0.1:6667", ":irc-channel #bar", ":irc-connect"] {
        root.room_command(OWNER, "lounge", command).expect("irc command");
    }
    root.enter_entity(ALICE, "lounge", "alice").expect("enter");
    let fragment = root.fragment_for("lounge").expect("fragment");
    let ready = IrcEvent::Ready { nick: "alice".to_string() };
    let news = handle_event(&mut root, RUNTIME, &fragment, ALICE, &ready);
    assert!(news.terms.is_empty());
    assert!(root.room_irc_has_mirror(&fragment, ALICE));
    (root, fragment)
}

fn tell(root: &mut RootActor, fragment: &str, event: IrcEvent) -> News {
    handle_event(root, RUNTIME, fragment, ALICE, &event)
}

fn text(term: &Term) -> &str {
    match term {
        Term::Text(text) => text,
        other => panic!("no text: {other:?}"),
    }
}

/// The verb of an event, the nick it is about, and what was said.
fn parts(term: &Term) -> (String, String, Option<String>) {
    encode_term(term, "encoding event").expect("sendable event");
    let Term::Array(items) = term else {
        panic!("no array: {term:?}");
    };
    let Term::Record(entries) = &items[1] else {
        panic!("no record: {term:?}");
    };
    let nick = entries
        .iter()
        .find(|(key, _)| text(key) == "nick")
        .map(|(_, value)| text(value).to_string())
        .expect("nick");
    (
        text(&items[0]).to_string(),
        nick,
        items.get(2).map(|item| text(item).to_string()),
    )
}

fn told(news: &News) -> Vec<(String, String, Option<String>)> {
    news.terms.iter().map(parts).collect()
}

fn event(verb: &str, nick: &str, said: Option<&str>) -> (String, String, Option<String>) {
    (verb.to_string(), nick.to_string(), said.map(str::to_string))
}

fn occupants(root: &RootActor) -> Vec<String> {
    root.room_snapshot("lounge").expect("room").irc_occupants
}

#[test]
fn channel_speech_is_repeated_into_the_room() {
    let (mut root, fragment) = connected_room();
    let message = IrcEvent::Message { nick: "bob".to_string(), text: "hi".to_string() };
    let news = tell(&mut root, &fragment, message);
    assert_eq!(told(&news), [event(":say", "bob", Some("hi"))]);
    assert_eq!(news.presence.len(), 2);
    // The speaker is on the channel.
    assert_eq!(occupants(&root), ["bob"]);

    let action = IrcEvent::Action { nick: "bob".to_string(), text: "waves".to_string() };
    let news = tell(&mut root, &fragment, action);
    assert_eq!(told(&news), [event(":emote", "bob", Some("waves"))]);
}

#[test]
fn own_speech_is_echoed_once() {
    let (mut root, fragment) = connected_room();
    let news = echo_speech(&root, RUNTIME, &fragment, ALICE, "hello", false);
    assert_eq!(told(&news), [event(":say", "alice", Some("hello"))]);
    assert_eq!(news.presence.len(), 2);
    let message = IrcEvent::Message { nick: "Alice".to_string(), text: "hello".to_string() };
    let news = tell(&mut root, &fragment, message);
    assert!(news.terms.is_empty());
    assert!(news.presence.is_empty());
    assert!(occupants(&root).is_empty());
    // Who is not on the channel is not echoed.
    assert!(echo_speech(&root, RUNTIME, &fragment, OWNER, "x", true).terms.is_empty());
    assert!(echo_speech(&root, RUNTIME, "#room-x", ALICE, "x", true).terms.is_empty());
}

#[test]
fn arrivals_and_departures_are_told_once() {
    let (mut root, fragment) = connected_room();
    let joined = || IrcEvent::Joined { nick: "bob".to_string() };
    assert_eq!(
        told(&tell(&mut root, &fragment, joined())),
        [event(":arrive", "bob", None)]
    );
    assert!(tell(&mut root, &fragment, joined()).terms.is_empty());
    assert_eq!(occupants(&root), ["bob"]);

    let quit = || IrcEvent::Quit { nick: "BOB".to_string() };
    assert_eq!(
        told(&tell(&mut root, &fragment, quit())),
        [event(":leave", "BOB", None)]
    );
    assert!(tell(&mut root, &fragment, quit()).terms.is_empty());
    assert!(occupants(&root).is_empty());
}

#[test]
fn occupant_that_parts_stays_in_the_room() {
    let (mut root, fragment) = connected_room();
    let parted = IrcEvent::Parted { nick: "alice".to_string() };
    assert!(tell(&mut root, &fragment, parted).terms.is_empty());
    assert!(!root.room_irc_has_mirror(&fragment, ALICE));
    let presence = root.room_snapshot("lounge").expect("room").presence;
    assert!(presence.iter().any(|record| record.did == ALICE));
}

#[test]
fn renames_are_told_of_channel_users_alone() {
    let (mut root, fragment) = connected_room();
    let renamed = |old: &str, new: &str| IrcEvent::Renamed {
        old: old.to_string(),
        new: new.to_string(),
    };
    assert!(tell(&mut root, &fragment, renamed("alice", "queen")).terms.is_empty());
    let joinable = root.entity_mut(&fragment).expect("room");
    assert_eq!(joinable.irc_mirror_nick(ALICE), Some("queen"));
    assert!(tell(&mut root, &fragment, renamed("ghost", "g")).terms.is_empty());

    tell(&mut root, &fragment, IrcEvent::Joined { nick: "bob".to_string() });
    assert_eq!(
        told(&tell(&mut root, &fragment, renamed("bob", "robert"))),
        [event(":leave", "bob", None), event(":arrive", "robert", None)]
    );
    assert_eq!(occupants(&root), ["robert"]);
}

#[test]
fn listing_replaces_the_channel_users() {
    let (mut root, fragment) = connected_room();
    tell(&mut root, &fragment, IrcEvent::Joined { nick: "ghost".to_string() });
    let names = IrcEvent::Names {
        nicks: vec!["alice".to_string(), "zed".to_string(), "bob".to_string()],
    };
    assert!(tell(&mut root, &fragment, names).terms.is_empty());
    assert_eq!(occupants(&root), ["bob", "zed"]);
    forget_occupants(&mut root, &fragment);
    assert!(occupants(&root).is_empty());
}

#[test]
fn ended_session_leaves_the_channel() {
    let (mut root, fragment) = connected_room();
    assert!(tell(&mut root, &fragment, IrcEvent::Disconnected).terms.is_empty());
    assert!(!root.room_irc_has_mirror(&fragment, ALICE));

    let (mut root, fragment) = connected_room();
    drop_mirror(&mut root, &fragment, ALICE);
    assert!(!root.room_irc_has_mirror(&fragment, ALICE));
}

#[test]
fn events_of_a_lost_room_are_dropped() {
    let (mut root, _) = connected_room();
    let before = format!("{root:?}");
    let joined = IrcEvent::Joined { nick: "bob".to_string() };
    let news = tell(&mut root, "#room-gone", joined);
    assert!(news.terms.is_empty());
    assert_eq!(format!("{root:?}"), before);
}

#[test]
fn occupant_with_a_refused_nick_is_put_out() {
    let (mut root, fragment) = connected_room();
    let error = Error::of("IRC nick is already in use");
    let notice = kick_occupant(&mut root, RUNTIME, &fragment, ALICE, &error).expect("notice");
    assert_eq!(notice.to, ALICE);
    assert_eq!(
        parts(&notice.term),
        event(
            ":say",
            "lounge",
            Some("your IRC nick could not be registered on the channel (IRC nick is already in use); re-enter with a different nick")
        )
    );
    assert!(!root.room_irc_has_mirror(&fragment, ALICE));
    let presence = root.room_snapshot("lounge").expect("room").presence;
    assert!(!presence.iter().any(|record| record.did == ALICE));
    assert!(kick_occupant(&mut root, RUNTIME, "#room-gone", ALICE, &error).is_none());
}

#[test]
fn joins_connect_rename_or_stay() {
    let (root, fragment) = connected_room();
    let plan = |connected: bool, ctx: &str| {
        plan_join(&root, &fragment, "guest", connected, ALICE, ctx)
    };
    assert!(matches!(plan(false, "queen"), JoinPlan::Connect { nick } if nick == "queen"));
    assert!(matches!(plan(false, "{}"), JoinPlan::Connect { nick } if nick == "guest"));
    assert!(matches!(plan(true, "queen"), JoinPlan::Rename { nick } if nick == "queen"));
    assert!(matches!(plan(true, "ALICE"), JoinPlan::Stay));
    assert!(matches!(plan(true, "{}"), JoinPlan::Stay));
}

#[test]
fn speech_is_sent_as_message_or_action() {
    assert_eq!(speech_line("#bar", "hi", false).expect("line"), "PRIVMSG #bar :hi");
    assert_eq!(
        speech_line("#bar", "waves", true).expect("line"),
        "PRIVMSG #bar :\x01ACTION waves\x01"
    );
    assert!(speech_line("#bar", "a\nb", false).is_err());
}

#[test]
fn switched_off_room_keeps_its_binding() {
    let (mut root, fragment) = connected_room();
    tell(&mut root, &fragment, IrcEvent::Joined { nick: "bob".to_string() });
    switch_off(&mut root, &fragment);
    assert!(root.room_irc_joinable(&fragment).is_none());
    assert!(!root.room_irc_has_mirror(&fragment, ALICE));
    assert!(occupants(&root).is_empty());
    let room = root.entity_mut(&fragment).expect("room");
    assert_eq!(room.irc.as_ref().expect("binding").channel, "#bar");
}

#[test]
fn nicks_that_differ_in_case_are_one_user() {
    let (mut root, fragment) = connected_room();
    tell(&mut root, &fragment, IrcEvent::Joined { nick: "bob".to_string() });
    let again = tell(&mut root, &fragment, IrcEvent::Joined { nick: "BOB".to_string() });
    assert!(again.terms.is_empty());
    tell(&mut root, &fragment, IrcEvent::Joined { nick: "carol".to_string() });
    assert_eq!(occupants(&root), ["BOB", "carol"]);
}

#[test]
fn failed_join_is_told_or_puts_the_occupant_out() {
    assert!(matches!(after_join(true, true), AfterJoin::Tell));
    assert!(matches!(after_join(true, false), AfterJoin::Tell));
    assert!(matches!(after_join(false, true), AfterJoin::Kick));
    assert!(matches!(after_join(false, false), AfterJoin::Nothing));
}

#[test]
fn bridge_ends_with_its_room() {
    let (root, fragment) = connected_room();
    assert!(!bridge_ends(&root, &fragment, false));
    assert!(bridge_ends(&root, &fragment, true));
    assert!(bridge_ends(&root, "#room-gone", false));
}

#[test]
fn resync_asks_a_session_or_drops_the_list() {
    let (mut root, fragment) = connected_room();
    tell(&mut root, &fragment, IrcEvent::Joined { nick: "bob".to_string() });
    let line = resync(&mut root, &fragment, "#bar", true);
    assert_eq!(line.as_deref(), Some("NAMES #bar"));
    assert_eq!(occupants(&root), ["bob"]);
    assert_eq!(resync(&mut root, &fragment, "#bar", false), None);
    assert!(occupants(&root).is_empty());
}
