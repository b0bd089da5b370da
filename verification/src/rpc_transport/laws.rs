//! What holds of the answers to requests and of the events on a channel.

use vstd::prelude::*;

use crate::bridge::{echo, kicked, room_event};
use crate::channel::dig::dig_spec;
use crate::channel::line::EventView;
use crate::channel::room::{
    deactivated, entered, entry_refusal, fake_gone, is_fake, is_mirror_nick, joinable, left,
    lists_presence, mirror_is, seen_joining, PresenceView, RoomView,
};
use crate::root::dig::drawn;
use crate::root::laws::{
    changed_room_keeps_the_root_well_formed, concourse_command_keeps_the_root_well_formed,
    concourse_commands_keep_owners_and_claim, digging_keeps_the_root_well_formed,
    entering_keeps_the_root_well_formed, refused_dig_changes_nothing,
    refused_room_command_changes_nothing, room_command_keeps_the_root_well_formed,
    room_commands_keep_owners_and_claim, rooms_keep_owners_and_claim, same_authority,
};
use crate::root::model::{
    command_word, concourse, dig_from_step, enter_step, exit_known, is_irc_command, owners_only,
    room_command_of, room_command_step, room_key, well_formed, with_room, DigView, EnterView,
    RootView,
};
use crate::rpc_transport::dispatch::{
    answer, arg, concourse_request, dispatched, fragment_or_name, join_failure, join_or_answer,
    local_address, pinged, possible, rolled_back, room_request, root_request, speech_effect, Chance,
    DecisionView, EffectView, ReplyView, RequestView,
};
use crate::rpc_transport::wire::{command_line, event_tree, fake_tree, fake_url, request_of};
use crate::term::{entry, TermView};
use crate::text::{
    ascii_lower, is_space, join, just, lemma_join_first, lemma_one_word, lemma_words_apart,
    lower_ignores_ascii_case, same_ignoring_case, strip_char, strip_leading,
};

verus! {

// ---- every request gets what it is owed ----

/// A ping is always answered, by the actor that was addressed.
pub proof fn ping_is_answered(
    root: RootView,
    request: RequestView,
    runtime: Seq<char>,
    bridged: bool,
    c: Chance,
)
    requires
        request.term == TermView::Text(":ping"@),
    ensures
        dispatched(root, request, runtime, bridged, c) == (
            root,
            Ok::<DecisionView, Seq<char>>(
                answer(pinged(request, runtime), TermView::Text(":pong"@)),
            ),
        ),
{
}

/// A request that names no actor of the runtime, and is no ping, is ignored.
pub proof fn unaddressed_request_is_ignored(
    root: RootView,
    request: RequestView,
    runtime: Seq<char>,
    bridged: bool,
    c: Chance,
)
    requires
        request.fragment is None,
        request_of(request.term) is Ok,
        request_of(request.term)->Ok_0.0 != ":ping"@,
    ensures
        dispatched(root, request, runtime, bridged, c) == (
            root,
            Ok::<DecisionView, Seq<char>>(DecisionView::Ignore),
        ),
{
}

/// Every request to a room or to an exit is answered, whether it is obeyed or
/// refused; the answer to an entry may wait for the channel.
pub proof fn request_to_a_room_is_answered(
    root: RootView,
    request: RequestView,
    runtime: Seq<char>,
    bridged: bool,
    c: Chance,
)
    requires
        request_of(request.term) is Ok,
        request.fragment is Some,
        request.fragment->0 != "concourse"@,
        request.fragment->0 != "root"@,
    ensures
        dispatched(root, request, runtime, bridged, c).1 is Ok,
        !(dispatched(root, request, runtime, bridged, c).1->Ok_0 is Ignore),
{
}

/// An entry that a room refuses is answered with the reason, and nothing
/// changes.
pub proof fn refused_entry_is_answered_with_the_reason(
    root: RootView,
    request: RequestView,
    runtime: Seq<char>,
    args: Seq<Seq<char>>,
    bridged: bool,
    c: Chance,
    reason: Seq<char>,
)
    requires
        enter_step(root, request.from, local_address(request), arg(args, 0)).1 == Err::<
            EnterView,
            Seq<char>,
        >(reason),
    ensures
        room_request(root, request, runtime, ":enter"@, args, bridged, c) == (
            root,
            Ok::<DecisionView, Seq<char>>(
                answer(
                    request.to,
                    TermView::Array(seq![TermView::Text(":error"@), TermView::Text(reason)]),
                ),
            ),
        ),
{
}

/// A command that a room refuses is answered with the reason, and nothing
/// changes.
pub proof fn refused_command_is_answered_with_the_reason(
    root: RootView,
    request: RequestView,
    runtime: Seq<char>,
    verb: Seq<char>,
    args: Seq<Seq<char>>,
    bridged: bool,
    c: Chance,
    reason: Seq<char>,
)
    requires
        verb != ":enter"@ && verb != ":look"@ && verb != ":dig"@,
        room_command_step(
            root,
            request.from,
            local_address(request),
            command_line(verb, args),
        ).1 == Err::<Seq<char>, Seq<char>>(reason),
    ensures
        room_request(root, request, runtime, verb, args, bridged, c) == (
            root,
            Ok::<DecisionView, Seq<char>>(
                answer(
                    runtime + local_address(request),
                    TermView::Array(seq![TermView::Text(":error"@), TermView::Text(reason)]),
                ),
            ),
        ),
{
    refused_room_command_changes_nothing(
        root,
        request.from,
        local_address(request),
        command_line(verb, args),
    );
}

/// A `dig` that a room refuses is answered with the reason, and nothing changes.
pub proof fn refused_dig_is_answered_with_the_reason(
    root: RootView,
    request: RequestView,
    runtime: Seq<char>,
    args: Seq<Seq<char>>,
    bridged: bool,
    c: Chance,
    reason: Seq<char>,
)
    requires
        drawn(root, c.room, c.exit),
        match dig_spec(args) {
            Err(error) => error == reason,
            Ok(spec_) => dig_from_step(
                root,
                request.from,
                local_address(request),
                spec_,
                c.room,
                c.exit,
            ).1 == Err::<DigView, Seq<char>>(reason),
        },
    ensures
        room_request(root, request, runtime, ":dig"@, args, bridged, c) == (
            root,
            Ok::<DecisionView, Seq<char>>(
                answer(
                    request.to,
                    TermView::Array(seq![TermView::Text(":error"@), TermView::Text(reason)]),
                ),
            ),
        ),
{
    reveal_strlit(":enter");
    reveal_strlit(":look");
    reveal_strlit(":dig");
    assert(":dig"@.len() == 4 && ":look"@.len() == 5 && ":enter"@.len() == 6);
    match dig_spec(args) {
        Ok(spec_) => {
            refused_dig_changes_nothing(
                root,
                request.from,
                local_address(request),
                spec_,
                c.room,
                c.exit,
            );
        },
        Err(_) => {},
    }
}

/// Looking at a room, walking through an exit and pinging change nothing.
pub proof fn looking_changes_nothing(
    root: RootView,
    request: RequestView,
    runtime: Seq<char>,
    bridged: bool,
    c: Chance,
)
    requires
        request_of(request.term) is Ok,
        ({
            let verb = request_of(request.term)->Ok_0.0;
            verb == ":look"@ || verb == ":ping"@ || verb == ":traverse"@
        }),
        request.fragment is Some,
        request.fragment->0 != "root"@,
        request_of(request.term)->Ok_0.0 == ":traverse"@ ==> exit_known(
            root,
            local_address(request),
        ) && request.fragment->0 != "concourse"@,
    ensures
        dispatched(root, request, runtime, bridged, c).0 == root,
{
    reveal_strlit(":enter");
    reveal_strlit(":look");
    reveal_strlit(":dig");
    assert(":dig"@.len() == 4 && ":look"@.len() == 5 && ":enter"@.len() == 6);
}

/// Whatever a request does, the root stays well formed.
pub proof fn request_keeps_the_root_well_formed(
    root: RootView,
    request: RequestView,
    runtime: Seq<char>,
    bridged: bool,
    c: Chance,
)
    requires
        well_formed(root),
        drawn(root, c.room, c.exit),
    ensures
        well_formed(dispatched(root, request, runtime, bridged, c).0),
{
    match request_of(request.term) {
        Ok((verb, args)) => {
            let addr = local_address(request);
            entering_keeps_the_root_well_formed(root, request.from, concourse(), "{}"@);
            entering_keeps_the_root_well_formed(root, request.from, arg(args, 0), "{}"@);
            entering_keeps_the_root_well_formed(root, request.from, addr, arg(args, 0));
            room_command_keeps_the_root_well_formed(
                root,
                request.from,
                addr,
                command_line(verb, args),
            );
            concourse_command_keeps_the_root_well_formed(
                root,
                request.from,
                command_line(verb, args),
                c.room,
                c.exit,
            );
            match dig_spec(args) {
                Ok(spec_) => {
                    digging_keeps_the_root_well_formed(
                        root,
                        request.from,
                        addr,
                        spec_,
                        c.room,
                        c.exit,
                    );
                },
                Err(_) => {},
            }
        },
        Err(_) => {},
    }
}

/// No request changes who owns the runtime or who claimed the root, nor does a
/// join that failed.
pub proof fn requests_keep_owners_and_claim(
    root: RootView,
    request: RequestView,
    runtime: Seq<char>,
    bridged: bool,
    c: Chance,
    name: Seq<char>,
    did: Seq<char>,
)
    ensures
        same_authority(root, dispatched(root, request, runtime, bridged, c).0),
        same_authority(root, join_failure(root, runtime, name, did).0),
{
    match request_of(request.term) {
        Ok((verb, args)) => {
            lemma_concourse_keeps_authority(root, request, runtime, verb, args, c);
            lemma_root_keeps_authority(root, request, runtime, verb, args);
            lemma_room_keeps_authority(root, request, runtime, verb, args, bridged, c);
        },
        Err(_) => {},
    }
}

proof fn lemma_concourse_keeps_authority(
    root: RootView,
    request: RequestView,
    runtime: Seq<char>,
    verb: Seq<char>,
    args: Seq<Seq<char>>,
    c: Chance,
)
    ensures
        same_authority(root, concourse_request(root, request, runtime, verb, args, c).0),
{
    match dig_spec(args) {
        Ok(spec_) => {
            rooms_keep_owners_and_claim(
                root,
                request.from,
                concourse(),
                "{}"@,
                spec_,
                c.room,
                c.exit,
            );
        },
        Err(_) => {},
    }
    concourse_commands_keep_owners_and_claim(
        root,
        request.from,
        command_line(verb, args),
        c.room,
        c.exit,
    );
    assert(same_authority(root, enter_step(root, request.from, concourse(), "{}"@).0));
}

proof fn lemma_root_keeps_authority(
    root: RootView,
    request: RequestView,
    runtime: Seq<char>,
    verb: Seq<char>,
    args: Seq<Seq<char>>,
)
    ensures
        same_authority(root, root_request(root, request, runtime, verb, args).0),
{
}

proof fn lemma_room_keeps_authority(
    root: RootView,
    request: RequestView,
    runtime: Seq<char>,
    verb: Seq<char>,
    args: Seq<Seq<char>>,
    bridged: bool,
    c: Chance,
)
    ensures
        same_authority(root, room_request(root, request, runtime, verb, args, bridged, c).0),
{
    let addr = local_address(request);
    match dig_spec(args) {
        Ok(spec_) => {
            rooms_keep_owners_and_claim(
                root,
                request.from,
                addr,
                arg(args, 0),
                spec_,
                c.room,
                c.exit,
            );
        },
        Err(_) => {},
    }
    room_commands_keep_owners_and_claim(root, request.from, addr, command_line(verb, args));
    assert(same_authority(root, enter_step(root, request.from, addr, arg(args, 0)).0));
}

// ---- entry and the channel ----

/// Entering a room whose channel is switched on waits for the join; entering
/// any other room is answered at once.
pub proof fn entry_into_a_connected_room_is_a_join(
    root: RootView,
    room: Seq<char>,
    did: Seq<char>,
    nick: Seq<char>,
    reply: ReplyView,
)
    requires
        room_key(root, room) is Some,
    ensures
        join_or_answer(root, room, did, nick, reply) is Join <==> joinable(
            root.entities[room_key(root, room)->0],
        ) is Some,
{
}

/// A first entry whose join fails leaves the room as it was before.
pub proof fn failed_join_undoes_the_entry(
    room: RoomView,
    did: Seq<char>,
    ctx: Seq<char>,
)
    requires
        !room.presence.contains_key(did),
        !room.irc_mirrors.contains_key(did),
    ensures
        rolled_back(entered(room, did, ctx), did) == room,
{
    assert(rolled_back(entered(room, did, ctx), did).presence =~= room.presence);
}

/// An occupant on the channel whose new nick is refused stays in the room under
/// the nick that it has on the channel.
pub proof fn refused_rename_keeps_the_occupant(
    room: RoomView,
    did: Seq<char>,
    ctx: Seq<char>,
)
    requires
        room.irc_mirrors.contains_key(did),
        entry_refusal(room, did) is None,
    ensures
        ({
            let after = rolled_back(entered(room, did, ctx), did);
            &&& after.presence.contains_key(did)
            &&& after.presence[did].ctx == room.irc_mirrors[did]
        }),
{
}

/// A failed join touches no other occupant, and keeps the root well formed.
pub proof fn failed_join_touches_nobody_else(
    root: RootView,
    runtime: Seq<char>,
    name: Seq<char>,
    did: Seq<char>,
    f: Seq<char>,
    other: Seq<char>,
)
    requires
        well_formed(root),
        root.entities.contains_key(f),
        other != did,
    ensures
        ({
            let after = join_failure(root, runtime, name, did).0;
            &&& well_formed(after)
            &&& after.entities.contains_key(f)
            &&& after.entities[f].presence.contains_key(other)
                == root.entities[f].presence.contains_key(other)
        }),
{
    let fragment = fragment_or_name(root, name);
    match room_key(root, fragment) {
        Some(g) => {
            changed_room_keeps_the_root_well_formed(
                root,
                g,
                rolled_back(root.entities[g], did),
            );
        },
        None => {},
    }
}

/// While a room is connected, speech goes to its channel alone; while it is
/// not, it goes to the room's occupants alone.
pub proof fn speech_goes_to_the_channel_or_to_the_room(
    room: RoomView,
    addr: Seq<char>,
    from: Seq<char>,
    runtime: Seq<char>,
    text: Seq<char>,
    emote: bool,
    bridged: bool,
    presence: Seq<PresenceView>,
)
    requires
        room.presence.contains_key(from),
    ensures
        ({
            let (effect, told) = speech_effect(
                room,
                addr,
                from,
                runtime,
                text,
                emote,
                bridged,
                presence,
            );
            &&& joinable(room) is Some ==> !(effect is Broadcast)
            &&& joinable(room) is Some ==> (effect is Speak <==> told is Ok)
            &&& joinable(room) is None ==> effect is Broadcast && told == Ok::<
                Seq<char>,
                Seq<char>,
            >("ok"@)
        }),
{
}

/// The verb of a request is the command that the room is given.
pub proof fn verb_is_the_command(verb: Seq<char>, args: Seq<Seq<char>>)
    requires
        verb.len() > 0,
        forall|i: int| 0 <= i < verb.len() ==> !is_space(#[trigger] verb[i]),
    ensures
        room_command_of(command_line(verb, args)) == command_word(verb),
{
    let parts = seq![verb] + args;
    lemma_one_word(verb);
    if args.len() == 0 {
        assert(parts =~= seq![verb]);
        assert(command_line(verb, args) == verb);
    } else {
        reveal_strlit(" ");
        assert(" "@ =~= seq![' ']);
        lemma_join_first(parts, " "@);
        lemma_words_apart(verb, join(parts.drop_first(), " "@));
    }
}

proof fn lemma_verb(verb: Seq<char>, word: Seq<char>, args: Seq<Seq<char>>)
    requires
        verb == seq![':'] + word,
        word.len() > 0,
        forall|i: int|
            0 <= i < word.len() ==> !is_space(#[trigger] word[i]) && word[i] != ':' && !('A'
                <= word[i] && word[i] <= 'Z'),
    ensures
        room_command_of(command_line(verb, args)) == word,
{
    assert forall|i: int| 0 <= i < verb.len() implies !is_space(#[trigger] verb[i]) by {
        if i > 0 {
            assert(verb[i] == word[i - 1]);
        }
    }
    verb_is_the_command(verb, args);
    assert(verb.drop_first() =~= word);
    assert(strip_leading(word, just(':')) == word);
    assert(strip_char(verb, ':') == word);
    assert(ascii_lower(word) =~= word);
}

proof fn lemma_channel_verbs(args: Seq<Seq<char>>)
    ensures
        room_command_of(command_line(":irc-connect"@, args)) == "irc-connect"@,
        room_command_of(command_line(":irc-disconnect"@, args)) == "irc-disconnect"@,
        room_command_of(command_line(":leave"@, args)) == "leave"@,
{
    reveal_strlit(":irc-connect");
    reveal_strlit("irc-connect");
    reveal_strlit(":irc-disconnect");
    reveal_strlit("irc-disconnect");
    reveal_strlit(":leave");
    reveal_strlit("leave");
    assert(":irc-connect"@ =~= seq![':'] + "irc-connect"@);
    assert(":irc-disconnect"@ =~= seq![':'] + "irc-disconnect"@);
    assert(":leave"@ =~= seq![':'] + "leave"@);
    lemma_verb(":irc-connect"@, "irc-connect"@, args);
    lemma_verb(":irc-disconnect"@, "irc-disconnect"@, args);
    lemma_verb(":leave"@, "leave"@, args);
}

/// Switching a room's channel on connects every occupant of the room to it, and
/// is for runtime owners alone.
pub proof fn switching_on_connects_every_occupant(
    root: RootView,
    request: RequestView,
    runtime: Seq<char>,
    args: Seq<Seq<char>>,
    bridged: bool,
    c: Chance,
)
    requires
        ({
            let (after, result) = room_command_step(
                root,
                request.from,
                local_address(request),
                command_line(":irc-connect"@, args),
            );
            result is Ok && possible(c, root, after, local_address(request))
        }),
    ensures
        root.owners.contains(request.from),
        ({
            let (after, decision) = room_request(
                root,
                request,
                runtime,
                ":irc-connect"@,
                args,
                bridged,
                c,
            );
            let f = room_key(after, local_address(request));
            &&& f is Some
            &&& joinable(after.entities[f->0]) is Some
            &&& decision is Ok
            &&& decision->Ok_0 is Answer
            &&& decision->Ok_0->Answer_effect == (EffectView::ConnectOccupants {
                fragment: f->0,
                binding: joinable(after.entities[f->0])->0,
                presence: c.presence,
            })
            &&& lists_presence(c.presence, after.entities[f->0].presence)
        }),
{
    lemma_room_verbs_differ();
    lemma_room_words_differ();
    lemma_channel_verbs(args);
    let addr = local_address(request);
    let after = room_command_step(
        root,
        request.from,
        addr,
        command_line(":irc-connect"@, args),
    ).0;
    assert(after.entities.dom() =~= root.entities.dom());
}

/// Switching a room's channel off stops its bridge, and leaves nobody on the
/// channel.
pub proof fn switching_off_stops_the_bridge(
    root: RootView,
    request: RequestView,
    runtime: Seq<char>,
    args: Seq<Seq<char>>,
    bridged: bool,
    c: Chance,
)
    requires
        root.owners.contains(request.from),
        room_key(root, local_address(request)) is Some,
    ensures
        ({
            let (after, decision) = room_request(
                root,
                request,
                runtime,
                ":irc-disconnect"@,
                args,
                bridged,
                c,
            );
            let f = room_key(root, local_address(request))->0;
            &&& after == with_room(root, f, deactivated(root.entities[f]))
            &&& decision is Ok
            &&& decision->Ok_0 is Answer
            &&& decision->Ok_0->Answer_effect == (EffectView::SwitchOff {
                fragment: local_address(request),
            })
        }),
{
    lemma_room_verbs_differ();
    lemma_room_words_differ();
    lemma_channel_verbs(args);
}

/// Who leaves a room is not in it any more, and is taken off its channel.
pub proof fn leaving_disconnects(
    root: RootView,
    request: RequestView,
    runtime: Seq<char>,
    args: Seq<Seq<char>>,
    bridged: bool,
    c: Chance,
)
    requires
        room_key(root, local_address(request)) is Some,
    ensures
        ({
            let (after, decision) = room_request(
                root,
                request,
                runtime,
                ":leave"@,
                args,
                bridged,
                c,
            );
            let f = room_key(root, local_address(request))->0;
            &&& after == with_room(root, f, left(root.entities[f], request.from))
            &&& decision is Ok
            &&& decision->Ok_0 is Answer
            &&& decision->Ok_0->Answer_effect == (EffectView::Disconnect {
                fragment: local_address(request),
                did: request.from,
            })
        }),
{
    lemma_room_verbs_differ();
    lemma_room_words_differ();
    lemma_channel_verbs(args);
}

proof fn lemma_room_verbs_differ()
    ensures
        ":irc-connect"@ != ":enter"@ && ":irc-connect"@ != ":look"@ && ":irc-connect"@ != ":dig"@,
        ":irc-disconnect"@ != ":enter"@ && ":irc-disconnect"@ != ":look"@ && ":irc-disconnect"@
            != ":dig"@ && ":irc-disconnect"@ != ":irc-connect"@ && ":irc-disconnect"@ != ":say"@
            && ":irc-disconnect"@ != ":emote"@,
        ":leave"@ != ":enter"@ && ":leave"@ != ":look"@ && ":leave"@ != ":dig"@ && ":leave"@
            != ":irc-connect"@ && ":leave"@ != ":say"@ && ":leave"@ != ":emote"@ && ":leave"@
            != ":irc-disconnect"@,
{
    reveal_strlit(":irc-connect");
    reveal_strlit(":irc-disconnect");
    reveal_strlit(":leave");
    reveal_strlit(":enter");
    reveal_strlit(":look");
    reveal_strlit(":dig");
    reveal_strlit(":say");
    reveal_strlit(":emote");
    assert(":irc-connect"@.len() == 12 && ":irc-disconnect"@.len() == 15);
    assert(":leave"@.len() == 6 && ":enter"@.len() == 6 && ":emote"@.len() == 6);
    assert(":look"@.len() == 5 && ":dig"@.len() == 4 && ":say"@.len() == 4);
    assert(":leave"@[1] == 'l' && ":enter"@[1] == 'e' && ":emote"@[1] == 'e');
}

proof fn lemma_room_words_differ()
    ensures
        ({
            let word = "irc-connect"@;
            &&& word != "help"@ && word != "look"@ && word != "exits"@ && word != "say"@
            &&& word != "emote"@ && word != "prop"@ && word != "owner"@ && word != "unlock"@
            &&& word != "irc-server"@ && word != "irc-nick"@ && word != "irc-channel"@
        }),
        ({
            let word = "irc-disconnect"@;
            &&& word != "help"@ && word != "look"@ && word != "exits"@ && word != "say"@
            &&& word != "emote"@ && word != "prop"@ && word != "owner"@ && word != "unlock"@
            &&& word != "irc-server"@ && word != "irc-nick"@ && word != "irc-channel"@
            &&& word != "irc-connect"@
        }),
        ({
            let word = "leave"@;
            &&& word != "help"@ && word != "look"@ && word != "exits"@ && word != "say"@
            &&& word != "emote"@ && word != "prop"@ && word != "owner"@ && word != "unlock"@
            &&& !is_irc_command(word) && !owners_only(word)
        }),
{
    reveal_strlit("irc-connect");
    reveal_strlit("irc-disconnect");
    reveal_strlit("leave");
    reveal_strlit("help");
    reveal_strlit("look");
    reveal_strlit("exits");
    reveal_strlit("say");
    reveal_strlit("emote");
    reveal_strlit("prop");
    reveal_strlit("owner");
    reveal_strlit("unlock");
    reveal_strlit("irc-server");
    reveal_strlit("irc-nick");
    reveal_strlit("irc-channel");
    assert("irc-connect"@.len() == 11 && "irc-disconnect"@.len() == 14 && "leave"@.len() == 5);
    assert("help"@.len() == 4 && "look"@.len() == 4 && "exits"@.len() == 5 && "say"@.len() == 3);
    assert("emote"@.len() == 5 && "prop"@.len() == 4 && "owner"@.len() == 5);
    assert("unlock"@.len() == 6 && "irc-server"@.len() == 10 && "irc-nick"@.len() == 8);
    assert("irc-channel"@.len() == 11);
    assert("irc-channel"@[5] == 'h' && "irc-connect"@[5] == 'o');
    assert("leave"@[0] == 'l' && "exits"@[0] == 'e' && "emote"@[0] == 'e' && "owner"@[0] == 'o');
}

// ---- events on the channel ----

/// No event on a channel puts anyone into the room or out of it, moves the room,
/// or changes its exits, props, policy or binding.
pub proof fn channel_events_leave_the_room_alone(
    room: RoomView,
    runtime: Seq<char>,
    fragment: Seq<char>,
    did: Seq<char>,
    event: EventView,
    mirror: Seq<char>,
)
    ensures
        ({
            let after = room_event(room, runtime, fragment, did, event, mirror).0;
            &&& after.presence == room.presence
            &&& after.fragment == room.fragment
            &&& after.label == room.label
            &&& after.exits == room.exits
            &&& after.props == room.props
            &&& after.policy == room.policy
            &&& after.irc == room.irc
        }),
{
}

/// An event on a channel keeps the root well formed.
pub proof fn channel_events_keep_the_root_well_formed(
    root: RootView,
    f: Seq<char>,
    runtime: Seq<char>,
    fragment: Seq<char>,
    did: Seq<char>,
    event: EventView,
    mirror: Seq<char>,
)
    requires
        well_formed(root),
        root.entities.contains_key(f),
    ensures
        well_formed(
            with_room(
                root,
                f,
                room_event(root.entities[f], runtime, fragment, did, event, mirror).0,
            ),
        ),
{
    channel_events_leave_the_room_alone(
        root.entities[f],
        runtime,
        fragment,
        did,
        event,
        mirror,
    );
    changed_room_keeps_the_root_well_formed(
        root,
        f,
        room_event(root.entities[f], runtime, fragment, did, event, mirror).0,
    );
}

/// What an occupant said is not repeated into the room when its echo is heard on
/// the channel.
pub proof fn own_speech_is_not_repeated(
    room: RoomView,
    runtime: Seq<char>,
    fragment: Seq<char>,
    did: Seq<char>,
    nick: Seq<char>,
    text: Seq<char>,
    mirror: Seq<char>,
)
    requires
        is_mirror_nick(room, nick),
    ensures
        room_event(
            room,
            runtime,
            fragment,
            did,
            EventView::Message { nick, text },
            mirror,
        ) == (room, Seq::<TermView>::empty()),
        room_event(
            room,
            runtime,
            fragment,
            did,
            EventView::Action { nick, text },
            mirror,
        ) == (room, Seq::<TermView>::empty()),
{
}

/// Who speaks on the channel and is no occupant is listed as an IRC-only user,
/// and its speech is repeated into the room.
pub proof fn speaker_is_listed(
    room: RoomView,
    runtime: Seq<char>,
    fragment: Seq<char>,
    did: Seq<char>,
    nick: Seq<char>,
    text: Seq<char>,
    mirror: Seq<char>,
)
    requires
        !is_mirror_nick(room, nick),
    ensures
        ({
            let (after, terms) = room_event(
                room,
                runtime,
                fragment,
                did,
                EventView::Message { nick, text },
                mirror,
            );
            &&& is_fake(after, nick)
            &&& terms == seq![
                event_tree(":say"@, fake_tree(runtime, fragment, nick), Some(text)),
            ]
        }),
        ({
            let (after, terms) = room_event(
                room,
                runtime,
                fragment,
                did,
                EventView::Action { nick, text },
                mirror,
            );
            &&& is_fake(after, nick)
            &&& terms == seq![
                event_tree(":emote"@, fake_tree(runtime, fragment, nick), Some(text)),
            ]
        }),
{
}

/// IRC-only users whose nicks differ in the case of ASCII letters alone have one
/// address, and are one user of the room.
pub proof fn nicks_ignore_ascii_case(
    room: RoomView,
    runtime: Seq<char>,
    a: Seq<char>,
    b: Seq<char>,
)
    requires
        same_ignoring_case(a, b),
    ensures
        fake_url(runtime, a) == fake_url(runtime, b),
        is_fake(room, a) == is_fake(room, b),
        fake_gone(room, a) == fake_gone(room, b),
{
    lower_ignores_ascii_case(a, b);
}

/// An arrival is told once, however many sessions see it.
pub proof fn arrival_is_told_once(
    room: RoomView,
    runtime: Seq<char>,
    fragment: Seq<char>,
    did: Seq<char>,
    other: Seq<char>,
    nick: Seq<char>,
    mirror: Seq<char>,
)
    ensures
        ({
            let event = EventView::Joined { nick };
            let after = room_event(room, runtime, fragment, did, event, mirror).0;
            room_event(after, runtime, fragment, other, event, mirror) == (
                after,
                Seq::<TermView>::empty(),
            )
        }),
{
    let event = EventView::Joined { nick };
    let after = room_event(room, runtime, fragment, did, event, mirror).0;
    if !is_mirror_nick(room, nick) {
        assert(forall|x: Seq<char>| mirror_is(after, x, nick) == mirror_is(room, x, nick));
        assert(!is_mirror_nick(after, nick));
        assert(seen_joining(after, nick).irc_occupants =~= after.irc_occupants);
    }
}

/// A departure is told once, however many sessions see it.
pub proof fn departure_is_told_once(
    room: RoomView,
    runtime: Seq<char>,
    fragment: Seq<char>,
    did: Seq<char>,
    other: Seq<char>,
    nick: Seq<char>,
    mirror: Seq<char>,
)
    requires
        !is_mirror_nick(room, nick),
    ensures
        ({
            let event = EventView::Quit { nick };
            let after = room_event(room, runtime, fragment, did, event, mirror).0;
            room_event(after, runtime, fragment, other, event, mirror) == (
                after,
                Seq::<TermView>::empty(),
            )
        }),
{
    let event = EventView::Quit { nick };
    let after = room_event(room, runtime, fragment, did, event, mirror).0;
    assert(forall|x: Seq<char>| mirror_is(after, x, nick) == mirror_is(room, x, nick));
    assert(!is_mirror_nick(after, nick));
}

/// An occupant that was put out is neither in the room nor on its channel.
pub proof fn kicked_occupant_is_gone(room: RoomView, did: Seq<char>)
    ensures
        !kicked(room, did).presence.contains_key(did),
        !kicked(room, did).irc_mirrors.contains_key(did),
{
}

} // verus!
