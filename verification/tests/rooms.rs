use ma_irc::channel::{ChannelEntryPolicy, RoomActor, RoomManifest, RoomSpec};
use ma_irc::collections::StringMap;
use ma_irc::ids::{draw_exit_fragment, draw_room_fragment};
use ma_irc::root::{DigOutcome, EnterResult, RootActor, RootManifest, CONCOURSE_ROOM};

const OWNER: &str = "did:ma:owner";
const ALICE: &str = "did:ma:alice";
const RUNTIME: &str = "did:ma:rt";

fn new_root() -> RootActor {
    RootActor::new(vec![OWNER.to_string()])
}

fn root_with_room() -> RootActor {
    let mut root = new_root();
    root.concourse_command(OWNER, "dig lounge").expect("dig");
    root
}

fn refused_on_concourse(root: &mut RootActor, caller: &str, command: &str) -> String {
    let before = format!("{root:?}");
    let error = root.concourse_command(caller, command).expect_err("refused");
    assert_eq!(format!("{root:?}"), before, "{command}");
    error.message().to_string()
}

fn refused_in_room(root: &mut RootActor, caller: &str, command: &str) -> String {
    let before = format!("{root:?}");
    let error = root.room_command(caller, "lounge", command).expect_err("refused");
    assert_eq!(format!("{root:?}"), before, "{command}");
    error.message().to_string()
}

fn refused_dig(input: &str) -> String {
    RoomSpec::from_dig(input).expect_err("refused").message().to_string()
}

fn room() -> RoomActor {
    RoomActor::new("#room-x", "lounge", ChannelEntryPolicy::open())
}

#[test]
fn dig_says_what_is_wrong() {
    assert_eq!(refused_dig("  "), "dig requires an entity name");
    assert_eq!(refused_dig("hub to"), "dig to requires a DID-URL after 'to'");
    assert_eq!(
        refused_dig("hub to did:ma:x"),
        "dig to requires a full DID-URL (did:ma:...#fragment)"
    );
    assert_eq!(
        refused_dig("hub nonsense"),
        "invalid dig token 'nonsense', expected key:value or 'to <did>'"
    );
    assert_eq!(
        refused_dig("hub desc:"),
        "invalid dig token 'desc:', key and value are required"
    );
    assert_eq!(
        refused_dig("hub server:x"),
        "dig does not configure IRC; use :irc-server, :irc-channel, and :irc-connect inside the room"
    );
    assert_eq!(
        refused_dig("hub colour:red"),
        "unsupported dig key 'colour' (supported: description/desc)"
    );
    assert_eq!(
        refused_dig("hub desc:x to did:ma:x#y"),
        "description only applies when digging a new room"
    );
}

#[test]
fn adding_an_exit_twice_repoints_it() {
    let mut room = room();
    room.add_exit("north", "a").expect("add");
    let fragment = room.exits[0].fragment.clone();
    room.add_exit("south", "b").expect("add");
    room.add_exit("north", "c").expect("repoint");
    assert_eq!(room.exits.len(), 2);
    assert_eq!(room.exits[0].target, "c");
    assert_eq!(room.exits[0].fragment, fragment);
    let once = format!("{room:?}");
    room.add_exit("north", "c").expect("again");
    assert_eq!(format!("{room:?}"), once);

    assert!(room.has_exit_named("north"));
    room.remove_exit("north").expect("remove");
    assert!(!room.has_exit_named("north"));
    assert_eq!(room.exits[0].name, "south");
    assert_eq!(room.remove_exit("north").expect_err("gone").message(), "exit not found");
}

#[test]
fn drawn_addresses_name_their_kind() {
    let exit = draw_exit_fragment();
    assert!(exit.starts_with("#exit-"));
    assert_eq!(exit.len(), "#exit-".len() + 10);
    let room = draw_room_fragment();
    assert!(room.starts_with("#room-"));
    assert!(room["#room-".len()..]
        .chars()
        .all(|c| c.is_ascii_alphanumeric() || c == '_' || c == '-'));
    assert_ne!(draw_room_fragment(), room);
}

#[test]
fn props_read_back_and_vanish_when_empty() {
    let mut room = room();
    room.set_prop("mood", "calm");
    assert_eq!(room.get_prop("mood"), Some("calm"));
    room.set_prop("mood", "");
    assert_eq!(room.get_prop("mood"), None);
    room.set_owner(Some(ALICE));
    assert_eq!(room.owner(), Some(ALICE));
    room.set_owner(Some(""));
    assert_eq!(room.owner(), None);
    room.set_prop("name", "");
    assert_eq!(room.name(), "lounge");
    room.set_description("soft".to_string());
    assert_eq!(room.description(), "soft");
}

#[test]
fn entry_follows_lock_and_policy() {
    let mut room = room();
    room.enter(ALICE, "alice").expect("open room");
    assert!(room.say(ALICE).is_ok());
    room.leave(ALICE);
    assert_eq!(
        room.emote(ALICE).expect_err("left").message(),
        "sender is not in the room"
    );

    room.set_prop("locked", "sesame");
    assert!(room.is_locked());
    assert_eq!(room.enter(ALICE, "a").expect_err("locked").message(), "room is locked");
    room.unlock();
    room.policy.set_allow(false);
    assert_eq!(
        room.enter(ALICE, "a").expect_err("closed").message(),
        "entry denied by channel policy"
    );
    room.policy.allow_did(ALICE);
    assert!(room.enter(ALICE, "a").is_ok());
    room.policy.deny_did(ALICE);
    assert!(room.enter(ALICE, "a").is_err());
    // A refused entry leaves the earlier presence as it was.
    assert_eq!(room.presence_list().len(), 1);
}

#[test]
fn rooms_say_what_is_wrong() {
    let mut root = root_with_room();
    let owners_only = "only owners may do this";
    assert_eq!(refused_in_room(&mut root, ALICE, ":irc-connect"), owners_only);
    assert_eq!(refused_in_room(&mut root, ALICE, ":irc-disconnect"), owners_only);
    assert_eq!(refused_in_room(&mut root, ALICE, ":owner did:ma:alice"), owners_only);
    assert_eq!(refused_in_room(&mut root, OWNER, ":owner"), "usage: :owner <did>");
    assert_eq!(refused_in_room(&mut root, OWNER, ":owner a b"), "usage: :owner <did>");
    assert_eq!(refused_in_room(&mut root, ALICE, ":say hi"), "sender is not in the room");
    assert_eq!(refused_in_room(&mut root, ALICE, ":prop"), "usage: :prop <key> [value]");
    assert_eq!(
        refused_in_room(&mut root, ALICE, ":prop mood calm"),
        "only the room owner may set props"
    );
    assert_eq!(
        refused_in_room(&mut root, OWNER, ":prop owner did:ma:x"),
        "owner is a protected prop; use :owner <did>"
    );
    assert_eq!(
        refused_in_room(&mut root, OWNER, ":irc-connect"),
        "set the IRC server and channel before :irc-connect"
    );
    assert_eq!(
        refused_in_room(&mut root, OWNER, ":irc-channel bar"),
        "usage: :irc-channel #<name>"
    );
    assert!(refused_in_room(&mut root, OWNER, ":irc-server host").starts_with("IRC server must"));
    assert!(refused_in_room(&mut root, OWNER, ":fly").starts_with("unknown room command 'fly'"));
    let gone = root.room_command(OWNER, "cellar", ":look").expect_err("missing");
    assert_eq!(gone.message(), "entity not found");
}

#[test]
fn lock_opens_to_its_secret_and_to_owners() {
    let mut root = root_with_room();
    let mut run = |caller: &str, command: &str| {
        root.room_command(caller, "lounge", command)
            .map_err(|error| error.message().to_string())
    };
    assert_eq!(run(ALICE, ":unlock"), Ok("room is not locked".to_string()));
    run(OWNER, ":prop locked open sesame").expect("lock");
    assert_eq!(run(ALICE, ":unlock"), Err("usage: :unlock <secret>".to_string()));
    assert_eq!(run(ALICE, ":unlock sesame"), Err("wrong unlock secret".to_string()));
    assert_eq!(run(ALICE, ":unlock open sesame"), Ok("unlocked".to_string()));
    run(OWNER, ":prop locked x").expect("lock");
    assert_eq!(run(OWNER, ":unlock"), Ok("unlocked".to_string()));
}

#[test]
fn irc_settings_are_shown_and_set() {
    let mut root = root_with_room();
    let mut run = |command: &str| {
        root.room_command(OWNER, "lounge", command).expect("obeyed")
    };
    assert_eq!(run(":irc-server"), "(IRC server not set)");
    assert_eq!(run(":irc-nick"), "(IRC nick not set)");
    assert_eq!(run(":irc-channel"), "(IRC channel not set)");
    assert_eq!(run(":irc-server irc://h"), "IRC server set to irc://h");
    assert_eq!(run(":irc-nick guest"), "IRC nick set to guest");
    assert_eq!(run(":irc-channel #bar"), "IRC channel set to #bar");
    assert_eq!(run(":irc-nick"), "guest");
    assert_eq!(run(":irc-connect"), "connected #bar on irc://h");
    assert_eq!(run(":irc-disconnect"), "disconnected lounge");
    assert_eq!(run(":prop mood"), "(unset)");
    assert_eq!(run(":prop mood very calm"), "mood set");
    assert_eq!(run(":prop mood"), "very calm");
    assert_eq!(run(":leave"), "left lounge");
    assert_eq!(run("exits"), "(no exits)");
    assert_eq!(run(""), "lounge\n\nExits:\n(no exits)");
    assert_eq!(root.room_irc_channel("lounge").as_deref(), Some("#bar"));
}

#[test]
fn concourse_says_what_is_wrong() {
    let mut root = root_with_room();
    let dig = "only owners may dig entities";
    assert_eq!(refused_on_concourse(&mut root, ALICE, "dig attic"), dig);
    assert_eq!(refused_on_concourse(&mut root, ALICE, "dig p to did:ma:x#y"), dig);
    assert_eq!(refused_on_concourse(&mut root, OWNER, "dig"), "dig requires an entity name");
    assert_eq!(
        refused_on_concourse(&mut root, OWNER, "dig concourse"),
        "#concourse is a reserved room"
    );
    assert_eq!(
        refused_on_concourse(&mut root, ALICE, "delete lounge"),
        "only owners may delete entities"
    );
    assert_eq!(
        refused_on_concourse(&mut root, OWNER, "del #concourse"),
        "#concourse cannot be deleted"
    );
    let missing = "entity not found";
    assert_eq!(refused_on_concourse(&mut root, OWNER, "delete cellar"), missing);
    assert_eq!(refused_on_concourse(&mut root, OWNER, "ctx cellar"), missing);
    assert_eq!(refused_on_concourse(&mut root, OWNER, "enter cellar"), missing);
    assert_eq!(refused_on_concourse(&mut root, OWNER, "exit-add cellar n x"), missing);
    assert_eq!(refused_on_concourse(&mut root, OWNER, "describe cellar x"), missing);
    assert_eq!(
        refused_on_concourse(&mut root, OWNER, "describe lounge"),
        "usage: describe <room> <text_with_underscores>"
    );
    assert_eq!(
        refused_on_concourse(&mut root, OWNER, "exit-add lounge n"),
        "usage: exit-add <room> <name> <target>"
    );
    assert_eq!(
        refused_on_concourse(&mut root, OWNER, "exit-del lounge"),
        "usage: exit-del <room> <name>"
    );
    assert_eq!(refused_on_concourse(&mut root, OWNER, "exit-del lounge n"), "exit not found");
    assert_eq!(refused_on_concourse(&mut root, OWNER, "delete"), "usage: delete <entity>");
    assert_eq!(refused_on_concourse(&mut root, OWNER, "ctx"), "usage: ctx <room>");
    assert_eq!(refused_on_concourse(&mut root, OWNER, "enter"), "usage: enter <entity>");
    assert!(refused_on_concourse(&mut root, OWNER, ":FLY")
        .starts_with("unknown #concourse command 'fly'"));
}

#[test]
fn concourse_guides_and_lists() {
    let mut root = new_root();
    assert_eq!(root.concourse_command(ALICE, "list").expect("list"), "(no rooms yet)");
    assert!(root.concourse_instructions().ends_with("Known rooms: (no rooms yet)"));
    root.concourse_command(OWNER, "dig zoo").expect("dig");
    root.concourse_command(OWNER, "dig attic").expect("dig");
    assert_eq!(root.concourse_command(ALICE, ":Exits").expect("list"), "attic\nzoo");
    let guide = root.concourse_command(ALICE, " ").expect("help");
    assert!(guide.ends_with("Known rooms: attic, zoo"));
    assert_eq!(root.concourse_command(ALICE, "enter #concourse").expect("enter"), guide);
    assert!(matches!(
        root.enter_entity(ALICE, CONCOURSE_ROOM, "{}"),
        Ok(EnterResult::ConcourseGuide(text)) if text == guide
    ));
    assert_eq!(root.concourse_command(ALICE, "enter zoo").expect("enter"), "entered zoo");
    assert_eq!(
        root.concourse_command(ALICE, "describe zoo many_animals here").expect("describe"),
        "updated description for zoo"
    );
    assert_eq!(root.room_snapshot("zoo").expect("zoo").description, "many animals here");
    assert_eq!(
        root.concourse_command(ALICE, "exit-add zoo up attic").expect("exit"),
        "added exit up -> attic"
    );
    assert_eq!(
        root.concourse_command(ALICE, "exit-del zoo up").expect("exit"),
        "removed exit up"
    );
    assert_eq!(root.concourse_command(OWNER, "del zoo").expect("delete"), "deleted zoo");
}

#[test]
fn dead_exits_keep_the_traveller() {
    let mut root = root_with_room();
    let lounge = root.fragment_for("#lounge").expect("fragment");
    let room = root.entity_mut("lounge").expect("room");
    room.add_exit_at("hole", "", "#exit-a".to_string());
    room.add_exit_at("gone", "cellar", "#exit-b".to_string());
    room.add_exit_at("away", "did:ma:x#y", "#exit-c".to_string());
    for dead in ["#exit-a", "#exit-b"] {
        let reply = root.exit_traverse(dead, ALICE, None, RUNTIME).expect("reply");
        assert_eq!(reply.parent, format!("{RUNTIME}{lounge}"));
        assert_eq!(reply.text, "This exit leads nowhere.");
        assert_eq!(reply.exit, format!("{RUNTIME}{dead}"));
    }
    let reply = root.exit_traverse("#exit-c", ALICE, Some("did:ma:bob"), RUNTIME).expect("reply");
    assert_eq!(reply.parent, "did:ma:x#y");
    assert_eq!(reply.text, "You go away.");
    assert_eq!(reply.did, "did:ma:bob");
    assert_eq!(
        root.exit_traverse("#exit-d", ALICE, None, RUNTIME).expect_err("missing").message(),
        "exit not found"
    );
    assert_eq!(root.room_url(RUNTIME, "cellar"), None);
}

#[test]
fn digging_from_a_room_links_and_enters() {
    let mut root = root_with_room();
    let spec = RoomSpec::from_dig("closet").expect("spec");
    match root.dig_from_room_at(
        OWNER,
        "lounge",
        spec,
        "#room-0123456789".to_string(),
        "#exit-0123456789".to_string(),
    ) {
        Ok(DigOutcome::Local { fragment, name, .. }) => {
            assert_eq!(fragment, "#room-0123456789");
            assert_eq!(name, "closet");
        }
        other => panic!("no room: {other:?}"),
    }
    let (holder, exit) = root.find_exit("#exit-0123456789").expect("exit");
    assert_eq!(Some(holder), root.fragment_for("lounge").as_deref());
    assert_eq!(exit.target, "#room-0123456789");
    let presence = root.room_snapshot("closet").expect("closet").presence;
    assert_eq!(presence[0].did, OWNER);
    assert_eq!(root.room_snapshot("closet").expect("closet").owner.as_deref(), Some(OWNER));

    let again = RoomSpec::from_dig("closet").expect("spec");
    assert_eq!(
        root.dig_from_room(OWNER, "lounge", again).expect_err("taken").message(),
        "entity label already exists"
    );
    let link = RoomSpec::from_dig("out to did:ma:x#y").expect("spec");
    assert!(matches!(
        root.dig_from_room(OWNER, "lounge", link),
        Ok(DigOutcome::Foreign { target, label }) if target == "did:ma:x#y" && label == "out"
    ));
}

#[test]
fn claim_belongs_to_the_first() {
    let mut root = new_root();
    root.claim(ALICE).expect("first");
    root.claim(ALICE).expect("again");
    assert_eq!(
        root.claim(OWNER).expect_err("taken").message(),
        "#root already claimed by another DID"
    );
    assert!(root.is_owner(OWNER));
    assert!(!root.is_owner(ALICE));
    assert_eq!(root.owners(), [OWNER]);
}

#[test]
fn first_claim_outlasts_other_operations() {
    let mut root = new_root();
    root.claim(ALICE).expect("first");
    root.concourse_command(OWNER, "dig lounge").expect("dig");
    root.concourse_command(OWNER, "describe lounge a quiet room").expect("describe");
    root.concourse_command(OWNER, "exit-add lounge north did:ma:x#y").expect("exit");
    root.enter_entity(ALICE, "lounge", "alice").expect("enter");
    root.room_command(OWNER, "lounge", ":irc-server irc://h").expect("irc");
    root.dig_entity(OWNER, RoomSpec::from_dig("attic").expect("spec")).expect("dig");
    root.dig_or_enter(ALICE, RoomSpec::from_dig("attic").expect("spec")).expect("enter");
    root.dig_from_room(OWNER, "lounge", RoomSpec::from_dig("closet").expect("spec"))
        .expect("dig");
    root.delete_entity(OWNER, "attic").expect("delete");
    let before = format!("{root:?}");
    assert_eq!(
        root.claim(OWNER).expect_err("taken").message(),
        "#root already claimed by another DID"
    );
    root.claim(ALICE).expect("again");
    assert_eq!(format!("{root:?}"), before);
    assert_eq!(root.owners(), [OWNER]);
    assert!(!root.is_owner(ALICE));

    let mut restored = RootActor::from_manifest(root.to_manifest(), vec![OWNER.to_string()]);
    restored.claim(OWNER).expect("unclaimed");
    assert!(restored.claim(ALICE).is_err());
}

#[test]
fn shared_exit_address_is_found_where_it_is_traversed() {
    let mut root = root_with_room();
    root.concourse_command(OWNER, "dig attic").expect("dig");
    for (name, target) in [("lounge", "did:ma:a#a"), ("attic", "did:ma:b#b")] {
        let room = root.entity_mut(name).expect("room");
        room.add_exit_at(name, target, "#exit-shared".to_string());
    }
    let (owner, exit) = root.find_exit("#exit-shared").expect("exit");
    assert_eq!(Some(owner), root.fragment_for(&exit.name).as_deref());
    let reply = root.exit_traverse("#exit-shared", ALICE, None, RUNTIME).expect("reply");
    assert_eq!(reply.parent, exit.target);
    assert_eq!(reply.text, format!("You go {}.", exit.name));
}

#[test]
fn manifest_restores_the_same_rooms() {
    let mut root = root_with_room();
    root.concourse_command(OWNER, "exit-add lounge north did:ma:x#y").expect("exit");
    root.room_command(OWNER, "lounge", ":irc-server irc://h").expect("irc");
    root.enter_entity(ALICE, "lounge", "alice").expect("enter");
    let manifest = root.to_manifest();
    let text = format!("{manifest:?}");
    let fragments: Vec<&str> = manifest.rooms.iter().map(|room| room.fragment.as_str()).collect();
    let mut sorted = fragments.clone();
    sorted.sort();
    assert_eq!(fragments, sorted);

    let restored = RootActor::from_manifest(manifest, vec![OWNER.to_string()]);
    let again = restored.to_manifest();
    assert_eq!(again.rooms.len(), 2);
    assert_eq!(restored.fragment_for("lounge"), root.fragment_for("lounge"));
    let snapshot = restored.room_snapshot("lounge").expect("room");
    assert!(snapshot.presence.is_empty());
    assert_eq!(snapshot.exits[0].target, "did:ma:x#y");
    assert_eq!(format!("{again:?}"), text);
}

#[test]
fn restored_root_always_has_the_concourse() {
    let attic = RoomManifest {
        fragment: "#room-a".to_string(),
        label: "attic".to_string(),
        props: StringMap::new(),
        exits: vec![],
        irc: None,
    };
    let mut root = RootActor::from_manifest(RootManifest { rooms: vec![attic] }, vec![]);
    assert!(root.has_room(CONCOURSE_ROOM));
    assert!(root.has_room("#room-a"));
    // Props that are missing fall back.
    let room = root.entity_mut("attic").expect("attic");
    assert_eq!(room.name(), "attic");
    assert_eq!(room.description(), "");
    assert_eq!(room.to_manifest().label, "attic");
}
