//! What a room bridge does about each event, and what the occupants are told.

use vstd::prelude::*;

use crate::bridge::{
    brings, changed, concerns, echo, join_plan, kick_notice, kicked, no_news, off_channel,
    room_event, speech, switched_off, unobserved, JoinPlanView, NewsView,
};
use crate::channel::line::EventView;
use crate::channel::nick::{desired_nick, nick_word};
use crate::channel::room::{
    is_mirror_nick, lists_presence, mirror_is, shown_nick, PresenceView, RoomView,
};
use crate::collections::lists_keys;
use crate::root::effects::differs_in_room;
use crate::root::model::{room_key, RootView};
use crate::rpc_transport::wire::{fake_name, fake_tree, presence_tree, speaking_room_tree};
use crate::term::TermView;
use crate::text::{lower, same_ignoring_case};

verus! {

// ---- who is told of ----

/// A text under a name.
pub open spec fn field(name: Seq<char>, text: Seq<char>) -> (TermView, TermView) {
    (TermView::Text(name), TermView::Text(text))
}

/// A person in a room, as the room's occupants are told of it.
pub open spec fn person(
    actor: Seq<char>,
    room: Seq<char>,
    nick: Seq<char>,
    description: Seq<char>,
) -> TermView {
    TermView::Record(
        seq![
            field("actor"@, actor),
            field("did"@, actor),
            field("parent"@, room),
            field("kind"@, "h00man"@),
            field("protocol"@, "/ma/agent/0.0.1"@),
            field("name"@, nick),
            field("nick"@, nick),
            field("description"@, description),
            (TermView::Text("rev"@), TermView::Int(1)),
        ],
    )
}

/// Occupants are told of by their DIDs and under the nick they present, IRC-only
/// users by an address made of their nick, both as children of the room.
pub proof fn persons_are_children_of_their_room(
    runtime: Seq<char>,
    fragment: Seq<char>,
    presence: PresenceView,
    nick: Seq<char>,
)
    ensures
        presence_tree(runtime + fragment, presence, Some(nick)) == person(
            presence.did,
            runtime + fragment,
            nick,
            "A direct DID presence."@,
        ),
        presence_tree(runtime + fragment, presence, None) == person(
            presence.did,
            runtime + fragment,
            shown_nick(presence),
            "A direct DID presence."@,
        ),
        fake_tree(runtime, fragment, nick) == person(
            runtime + "#irc-"@ + fake_name(nick),
            runtime + fragment,
            nick,
            "An IRC user in the channel."@,
        ),
{
    assert(presence_tree(runtime + fragment, presence, Some(nick))->Record_0 =~= person(
        presence.did,
        runtime + fragment,
        nick,
        "A direct DID presence."@,
    )->Record_0);
    assert(presence_tree(runtime + fragment, presence, None)->Record_0 =~= person(
        presence.did,
        runtime + fragment,
        shown_nick(presence),
        "A direct DID presence."@,
    )->Record_0);
    assert(fake_tree(runtime, fragment, nick)->Record_0 =~= person(
        runtime + "#irc-"@ + fake_name(nick),
        runtime + fragment,
        nick,
        "An IRC user in the channel."@,
    )->Record_0);
}

/// A list of occupants names each of them once, and nobody else.
pub proof fn list_names_every_occupant(
    list: Seq<PresenceView>,
    presence: Map<Seq<char>, PresenceView>,
    did: Seq<char>,
)
    requires
        lists_presence(list, presence),
        presence.contains_key(did),
    ensures
        list.contains(presence[did]),
        forall|i: int|
            0 <= i < list.len() ==> exists|d: Seq<char>| #[trigger]
                presence.contains_key(d) && presence[d] == #[trigger] list[i],
{
    let keys = choose|keys: Seq<Seq<char>>| #[trigger]
        lists_keys(keys, presence) && list == keys.map_values(|k: Seq<char>| presence[k]);
    assert(keys.contains(did));
    assert(list[keys.index_of(did)] == presence[did]);
    assert forall|i: int| 0 <= i < list.len() implies exists|d: Seq<char>| #[trigger]
        presence.contains_key(d) && presence[d] == #[trigger] list[i] by {
        assert(keys.contains(keys[i]));
        assert(presence.contains_key(keys[i]));
    }
}

// ---- speech ----

/// What an occupant said on the channel is told to its room once, as an emote
/// exactly where it was one, and under the nick that the occupant has on the
/// channel. Who is not both in the room and on its channel is not echoed.
pub proof fn echo_keeps_the_kind_of_speech(
    room: RoomView,
    runtime: Seq<char>,
    fragment: Seq<char>,
    did: Seq<char>,
    text: Seq<char>,
    emote: bool,
)
    ensures
        room.presence.contains_key(did) && room.irc_mirrors.contains_key(did) && emote ==> echo(
            room,
            runtime,
            fragment,
            did,
            text,
            emote,
        ) == seq![
            TermView::Array(
                seq![
                    TermView::Text(":emote"@),
                    person(
                        room.presence[did].did,
                        runtime + fragment,
                        room.irc_mirrors[did],
                        "A direct DID presence."@,
                    ),
                    TermView::Text(text),
                ],
            ),
        ],
        room.presence.contains_key(did) && room.irc_mirrors.contains_key(did) && !emote ==> echo(
            room,
            runtime,
            fragment,
            did,
            text,
            emote,
        ) == seq![
            TermView::Array(
                seq![
                    TermView::Text(":say"@),
                    person(
                        room.presence[did].did,
                        runtime + fragment,
                        room.irc_mirrors[did],
                        "A direct DID presence."@,
                    ),
                    TermView::Text(text),
                ],
            ),
        ],
        !(room.presence.contains_key(did) && room.irc_mirrors.contains_key(did)) ==> echo(
            room,
            runtime,
            fragment,
            did,
            text,
            emote,
        ).len() == 0,
{
    if room.presence.contains_key(did) && room.irc_mirrors.contains_key(did) {
        persons_are_children_of_their_room(
            runtime,
            fragment,
            room.presence[did],
            room.irc_mirrors[did],
        );
    }
}

/// Speech goes to the channel as one line, wrapped as an action where it is an
/// emote; speech of several lines is refused.
pub proof fn speech_goes_out_as_it_was_meant(channel: Seq<char>, text: Seq<char>, emote: bool)
    ensures
        text.contains('\r') || text.contains('\n') ==> speech(channel, text, emote) == Err::<
            Seq<char>,
            Seq<char>,
        >("IRC message must be one line"@),
        !text.contains('\r') && !text.contains('\n') && !emote ==> speech(channel, text, emote)
            == Ok::<Seq<char>, Seq<char>>("PRIVMSG "@ + channel + " :"@ + text),
        !text.contains('\r') && !text.contains('\n') && emote ==> speech(channel, text, emote)
            == Ok::<Seq<char>, Seq<char>>(
            "PRIVMSG "@ + channel + " :"@ + ("\u{1}ACTION "@ + text + "\u{1}"@),
        ),
{
    reveal_strlit("\u{1}ACTION ");
    reveal_strlit("\u{1}");
    let wrapped = "\u{1}ACTION "@ + text + "\u{1}"@;
    let n = "\u{1}ACTION "@.len() as int;
    assert forall|c: char| c == '\r' || c == '\n' implies wrapped.contains(c) == text.contains(
        c,
    ) by {
        if text.contains(c) {
            assert(wrapped[n + text.index_of(c)] == c);
        }
        if wrapped.contains(c) {
            let i = wrapped.index_of(c);
            assert(n <= i && i < n + text.len());
            assert(text[i - n] == c);
        }
    }
}

// ---- events on the channel ----

/// Whether `nick` is, but for its case, the one that an occupant has on the
/// channel.
pub open spec fn taken_by_occupant(room: RoomView, nick: Seq<char>) -> bool {
    exists|did: Seq<char>| #[trigger]
        room.irc_mirrors.contains_key(did) && same_ignoring_case(room.irc_mirrors[did], nick)
}

proof fn lemma_taken(room: RoomView, nick: Seq<char>)
    ensures
        is_mirror_nick(room, nick) <==> taken_by_occupant(room, nick),
{
    if is_mirror_nick(room, nick) {
        let did = choose|did: Seq<char>| #[trigger] mirror_is(room, did, nick);
        assert(room.irc_mirrors.contains_key(did));
    }
    if taken_by_occupant(room, nick) {
        let did = choose|did: Seq<char>| #[trigger]
            room.irc_mirrors.contains_key(did) && same_ignoring_case(room.irc_mirrors[did], nick);
        assert(mirror_is(room, did, nick));
    }
}

/// A session that is ready puts its occupant on the channel under the nick that
/// the server accepted; one that ended takes it off. Nobody is told.
pub proof fn sessions_come_and_go_silently(
    room: RoomView,
    runtime: Seq<char>,
    fragment: Seq<char>,
    did: Seq<char>,
    nick: Seq<char>,
    mirror: Seq<char>,
)
    ensures
        room_event(room, runtime, fragment, did, EventView::Ready { nick }, mirror) == (
            RoomView { irc_mirrors: room.irc_mirrors.insert(did, nick), ..room },
            Seq::<TermView>::empty(),
        ),
        room_event(room, runtime, fragment, did, EventView::Disconnected, mirror) == (
            RoomView { irc_mirrors: room.irc_mirrors.remove(did), ..room },
            Seq::<TermView>::empty(),
        ),
{
}

/// Speech of an IRC-only user lists that user and is told to the room, an action
/// as an emote and a message as plain speech; that of an occupant is not told
/// again.
pub proof fn channel_speech_is_told(
    room: RoomView,
    runtime: Seq<char>,
    fragment: Seq<char>,
    did: Seq<char>,
    nick: Seq<char>,
    text: Seq<char>,
    mirror: Seq<char>,
)
    ensures
        ({
            let said = room_event(
                room,
                runtime,
                fragment,
                did,
                EventView::Message { nick, text },
                mirror,
            );
            let done = room_event(
                room,
                runtime,
                fragment,
                did,
                EventView::Action { nick, text },
                mirror,
            );
            let speaker = person(
                runtime + "#irc-"@ + fake_name(nick),
                runtime + fragment,
                nick,
                "An IRC user in the channel."@,
            );
            let listed = RoomView {
                irc_occupants: room.irc_occupants.insert(lower(nick), nick),
                ..room
            };
            &&& taken_by_occupant(room, nick) ==> said == (room, Seq::<TermView>::empty()) && done
                == (room, Seq::<TermView>::empty())
            &&& !taken_by_occupant(room, nick) ==> said == (
                listed,
                seq![
                    TermView::Array(
                        seq![TermView::Text(":say"@), speaker, TermView::Text(text)],
                    ),
                ],
            ) && done == (
                listed,
                seq![
                    TermView::Array(
                        seq![TermView::Text(":emote"@), speaker, TermView::Text(text)],
                    ),
                ],
            )
        }),
{
    lemma_taken(room, nick);
    persons_are_children_of_their_room(
        runtime,
        fragment,
        PresenceView { did, ctx: text },
        nick,
    );
}

/// The event by which the room is told that an IRC-only user came or went.
pub open spec fn passing(
    verb: Seq<char>,
    runtime: Seq<char>,
    fragment: Seq<char>,
    nick: Seq<char>,
) -> TermView {
    TermView::Array(
        seq![
            TermView::Text(verb),
            person(
                runtime + "#irc-"@ + fake_name(nick),
                runtime + fragment,
                nick,
                "An IRC user in the channel."@,
            ),
        ],
    )
}

/// An IRC-only user that joins is listed, and its arrival is told where it was
/// not listed before. An occupant's own joining changes nothing.
pub proof fn joining_is_listed_and_told(
    room: RoomView,
    runtime: Seq<char>,
    fragment: Seq<char>,
    did: Seq<char>,
    nick: Seq<char>,
    mirror: Seq<char>,
)
    ensures
        ({
            let (after, terms) = room_event(
                room,
                runtime,
                fragment,
                did,
                EventView::Joined { nick },
                mirror,
            );
            &&& taken_by_occupant(room, nick) ==> after == room && terms.len() == 0
            &&& !taken_by_occupant(room, nick) ==> after == (RoomView {
                irc_occupants: room.irc_occupants.insert(lower(nick), nick),
                ..room
            })
            &&& !taken_by_occupant(room, nick) && room.irc_occupants.contains_key(lower(nick))
                ==> terms.len() == 0
            &&& !taken_by_occupant(room, nick) && !room.irc_occupants.contains_key(lower(nick))
                ==> terms == seq![passing(":arrive"@, runtime, fragment, nick)]
        }),
{
    lemma_taken(room, nick);
    persons_are_children_of_their_room(
        runtime,
        fragment,
        PresenceView { did, ctx: nick },
        nick,
    );
}

/// A nick that parts or quits is listed no longer, and its leaving is told where
/// it was listed. An occupant that does so is off the channel, stays in the room,
/// and is not told of.
pub proof fn departure_is_unlisted_and_told(
    room: RoomView,
    runtime: Seq<char>,
    fragment: Seq<char>,
    did: Seq<char>,
    nick: Seq<char>,
    mirror: Seq<char>,
)
    ensures
        ({
            let parted = room_event(
                room,
                runtime,
                fragment,
                did,
                EventView::Parted { nick },
                mirror,
            );
            let quit = room_event(room, runtime, fragment, did, EventView::Quit { nick }, mirror);
            &&& parted == quit
            &&& taken_by_occupant(room, nick) ==> parted == (
                RoomView { irc_mirrors: room.irc_mirrors.remove(mirror), ..room },
                Seq::<TermView>::empty(),
            )
            &&& !taken_by_occupant(room, nick) && !room.irc_occupants.contains_key(lower(nick))
                ==> parted == (room, Seq::<TermView>::empty())
            &&& !taken_by_occupant(room, nick) && room.irc_occupants.contains_key(lower(nick))
                ==> parted == (
                RoomView { irc_occupants: room.irc_occupants.remove(lower(nick)), ..room },
                seq![passing(":leave"@, runtime, fragment, nick)],
            )
        }),
{
    lemma_taken(room, nick);
    persons_are_children_of_their_room(
        runtime,
        fragment,
        PresenceView { did, ctx: nick },
        nick,
    );
}

/// An occupant that is renamed on the channel has the new nick there, and nobody
/// is told. An IRC-only user that is renamed leaves under the old nick and
/// arrives under the new one, unless that is an occupant's or listed already.
pub proof fn renaming_is_leaving_and_arriving(
    room: RoomView,
    runtime: Seq<char>,
    fragment: Seq<char>,
    did: Seq<char>,
    old_nick: Seq<char>,
    new_nick: Seq<char>,
    mirror: Seq<char>,
)
    ensures
        ({
            let (after, terms) = room_event(
                room,
                runtime,
                fragment,
                did,
                EventView::Renamed { old_nick, new_nick },
                mirror,
            );
            let rest = room.irc_occupants.remove(lower(old_nick));
            let known = room.irc_occupants.contains_key(lower(old_nick));
            let leaves = passing(":leave"@, runtime, fragment, old_nick);
            let arrives = passing(":arrive"@, runtime, fragment, new_nick);
            &&& taken_by_occupant(room, old_nick) ==> after == (RoomView {
                irc_mirrors: room.irc_mirrors.insert(mirror, new_nick),
                ..room
            }) && terms.len() == 0
            &&& !taken_by_occupant(room, old_nick) && !known ==> after == room && terms.len() == 0
            &&& !taken_by_occupant(room, old_nick) && known && taken_by_occupant(room, new_nick)
                ==> after == (RoomView { irc_occupants: rest, ..room }) && terms == seq![leaves]
            &&& !taken_by_occupant(room, old_nick) && known && !taken_by_occupant(room, new_nick)
                ==> after == (RoomView {
                irc_occupants: rest.insert(lower(new_nick), new_nick),
                ..room
            }) && terms == if rest.contains_key(lower(new_nick)) {
                seq![leaves]
            } else {
                seq![leaves, arrives]
            }
        }),
{
    lemma_taken(room, old_nick);
    lemma_taken(room, new_nick);
    let gone = RoomView { irc_occupants: room.irc_occupants.remove(lower(old_nick)), ..room };
    lemma_taken(gone, new_nick);
    if taken_by_occupant(gone, new_nick) {
        let d = choose|d: Seq<char>| #[trigger]
            gone.irc_mirrors.contains_key(d) && same_ignoring_case(gone.irc_mirrors[d], new_nick);
        assert(room.irc_mirrors.contains_key(d));
    }
    let blank = PresenceView { did, ctx: old_nick };
    persons_are_children_of_their_room(runtime, fragment, blank, old_nick);
    persons_are_children_of_their_room(runtime, fragment, blank, new_nick);
    let leaves = passing(":leave"@, runtime, fragment, old_nick);
    let arrives = passing(":arrive"@, runtime, fragment, new_nick);
    assert(seq![leaves].push(arrives) =~= seq![leaves, arrives]);
}

/// After a listing the IRC-only users are those that it names, but for the
/// occupants; who was known keeps the nick under which it was. Nothing else
/// changes, and nobody is told.
pub proof fn listing_replaces_the_users(
    room: RoomView,
    runtime: Seq<char>,
    fragment: Seq<char>,
    did: Seq<char>,
    nicks: Seq<Seq<char>>,
    mirror: Seq<char>,
    key: Seq<char>,
)
    ensures
        ({
            let (after, terms) = room_event(
                room,
                runtime,
                fragment,
                did,
                EventView::Names { nicks },
                mirror,
            );
            &&& terms.len() == 0
            &&& after == (RoomView { irc_occupants: after.irc_occupants, ..room })
            &&& after.irc_occupants.contains_key(key) <==> exists|i: int|
                0 <= i < nicks.len() && !taken_by_occupant(room, #[trigger] nicks[i]) && lower(
                    nicks[i],
                ) == key
            &&& after.irc_occupants.contains_key(key) && room.irc_occupants.contains_key(key)
                ==> after.irc_occupants[key] == room.irc_occupants[key]
            &&& after.irc_occupants.contains_key(key) && !room.irc_occupants.contains_key(key)
                ==> exists|i: int|
                0 <= i < nicks.len() && lower(nicks[i]) == key && after.irc_occupants[key]
                    == #[trigger] nicks[i]
        }),
{
    lemma_listed(room, nicks, key);
}

proof fn lemma_listed(room: RoomView, nicks: Seq<Seq<char>>, key: Seq<char>)
    ensures
        ({
            let listed = crate::channel::room::listed_fakes(room, nicks);
            &&& listed.contains_key(key) <==> exists|i: int|
                0 <= i < nicks.len() && !taken_by_occupant(room, #[trigger] nicks[i]) && lower(
                    nicks[i],
                ) == key
            &&& listed.contains_key(key) ==> exists|i: int|
                0 <= i < nicks.len() && lower(nicks[i]) == key && listed[key] == #[trigger] nicks[i]
        }),
    decreases nicks.len(),
{
    let listed = crate::channel::room::listed_fakes(room, nicks);
    if nicks.len() > 0 {
        let rest = nicks.drop_last();
        let last = nicks.last();
        let n = nicks.len() - 1;
        assert(nicks[n] == last);
        lemma_listed(room, rest, key);
        lemma_taken(room, last);
        let before = crate::channel::room::listed_fakes(room, rest);
        if before.contains_key(key) {
            let i = choose|i: int|
                0 <= i < rest.len() && !taken_by_occupant(room, #[trigger] rest[i]) && lower(
                    rest[i],
                ) == key;
            assert(nicks[i] == rest[i]);
            let k = choose|k: int|
                0 <= k < rest.len() && lower(rest[k]) == key && before[key] == #[trigger] rest[k];
            assert(nicks[k] == rest[k]);
        }
        if exists|i: int|
            0 <= i < nicks.len() && !taken_by_occupant(room, #[trigger] nicks[i]) && lower(
                nicks[i],
            ) == key {
            let i = choose|i: int|
                0 <= i < nicks.len() && !taken_by_occupant(room, #[trigger] nicks[i]) && lower(
                    nicks[i],
                ) == key;
            if i < n {
                assert(rest[i] == nicks[i]);
            }
        }
    }
}

/// Changing a room changes that room alone, and a room that is not there changes
/// nothing.
pub proof fn change_reaches_one_room(
    root: RootView,
    name: Seq<char>,
    change: spec_fn(RoomView) -> RoomView,
)
    ensures
        room_key(root, name) is None ==> changed(root, name, change) == root,
        room_key(root, name) is Some ==> {
            let f = room_key(root, name)->0;
            let after = changed(root, name, change);
            differs_in_room(root, after, f) && after.entities[f] == change(root.entities[f])
        },
{
    let after = changed(root, name, change);
    if room_key(root, name) is Some {
        assert(after.entities.dom() =~= root.entities.dom());
    }
}

/// Without a session the room knows of nobody who is on the channel alone; its
/// occupants, and all else about it, stay.
pub proof fn losing_the_session_forgets_the_users(root: RootView, f: Seq<char>)
    requires
        root.entities.contains_key(f),
    ensures
        differs_in_room(root, unobserved(root, f), f),
        unobserved(root, f).entities[f] == (RoomView {
            irc_occupants: Map::empty(),
            ..root.entities[f]
        }),
{
    let after = unobserved(root, f);
    assert(after.entities.dom() =~= root.entities.dom());
    assert(after.entities[f].irc_occupants =~= Map::<Seq<char>, Seq<char>>::empty());
}

/// Off the channel, an occupant is in the room as before, and so is everybody
/// else, on the channel and off it.
pub proof fn leaving_the_channel_is_not_leaving_the_room(
    root: RootView,
    f: Seq<char>,
    did: Seq<char>,
    other: Seq<char>,
)
    requires
        root.entities.contains_key(f),
        other != did,
    ensures
        ({
            let room = root.entities[f];
            let after = off_channel(root, f, did).entities[f];
            &&& differs_in_room(root, off_channel(root, f, did), f)
            &&& after == (RoomView { irc_mirrors: after.irc_mirrors, ..room })
            &&& !after.irc_mirrors.contains_key(did)
            &&& after.irc_mirrors.contains_key(other) <==> room.irc_mirrors.contains_key(other)
            &&& room.irc_mirrors.contains_key(other) ==> after.irc_mirrors[other]
                == room.irc_mirrors[other]
        }),
{
    assert(off_channel(root, f, did).entities.dom() =~= root.entities.dom());
}

/// Switched off, a room is on no channel and mirrors nobody; what it is bound to
/// and who is in it stays.
pub proof fn switching_off_keeps_the_room(root: RootView, f: Seq<char>)
    requires
        root.entities.contains_key(f),
    ensures
        differs_in_room(root, switched_off(root, f), f),
        switched_off(root, f).entities[f] == (RoomView {
            irc_active: false,
            irc_mirrors: Map::empty(),
            irc_occupants: Map::empty(),
            ..root.entities[f]
        }),
{
    assert(switched_off(root, f).entities.dom() =~= root.entities.dom());
}

// ---- joining the channel ----

/// An occupant without a session asks for the nick that it presents, else for
/// the room's, else for one made of its DID.
pub proof fn first_join_asks_for_the_presented_nick(
    root: RootView,
    name: Seq<char>,
    room_nick: Seq<char>,
    did: Seq<char>,
    ctx: Seq<char>,
)
    ensures
        ({
            let plan = join_plan(root, name, room_nick, false, did, ctx);
            &&& nick_word(ctx) is Some ==> plan == (JoinPlanView::Connect {
                nick: desired_nick(Some(ctx), did),
            })
            &&& nick_word(ctx) is None && nick_word(room_nick) is Some ==> plan == (
            JoinPlanView::Connect { nick: desired_nick(Some(room_nick), did) })
            &&& nick_word(ctx) is None && nick_word(room_nick) is None ==> plan == (
            JoinPlanView::Connect { nick: desired_nick(None, did) })
        }),
{
}

/// An occupant with a session asks for another nick exactly where it presents
/// one that differs from the one it has on the channel.
pub proof fn later_join_renames_or_stays(
    root: RootView,
    name: Seq<char>,
    room_nick: Seq<char>,
    did: Seq<char>,
    ctx: Seq<char>,
)
    ensures
        ({
            let plan = join_plan(root, name, room_nick, true, did, ctx);
            let wanted = desired_nick(Some(ctx), did);
            let on_channel = match room_key(root, name) {
                Some(f) => root.entities[f].irc_mirrors.contains_key(did),
                None => false,
            };
            let current = root.entities[room_key(root, name)->0].irc_mirrors[did];
            &&& nick_word(ctx) is None ==> plan == JoinPlanView::Stay
            &&& nick_word(ctx) is Some && on_channel ==> plan == if same_ignoring_case(current, wanted) {
                JoinPlanView::Stay
            } else {
                JoinPlanView::Rename { nick: wanted }
            }
            &&& nick_word(ctx) is Some && !on_channel && wanted.len() > 0 ==> plan == (
            JoinPlanView::Rename { nick: wanted })
        }),
{
    let wanted = desired_nick(Some(ctx), did);
    assert(crate::text::ascii_lower(wanted).len() == wanted.len());
    assert(crate::text::ascii_lower(Seq::<char>::empty()).len() == 0);
}

/// An occupant that is put out is out of the room and off its channel, and
/// nobody else is; it is told why by the room.
pub proof fn putting_out_touches_one_occupant(
    room: RoomView,
    runtime: Seq<char>,
    fragment: Seq<char>,
    did: Seq<char>,
    error: Seq<char>,
)
    ensures
        kicked(room, did) == (RoomView {
            presence: room.presence.remove(did),
            irc_mirrors: room.irc_mirrors.remove(did),
            ..room
        }),
        ({
            let notice = kick_notice(runtime, fragment, room.label, did, error);
            &&& notice.from_actor == runtime + fragment
            &&& notice.to == did
            &&& notice.term == TermView::Array(
                seq![
                    TermView::Text(":say"@),
                    speaking_room_tree(runtime, runtime + fragment, room.label),
                    TermView::Text(
                        "your IRC nick could not be registered on the channel ("@ + error
                            + "); re-enter with a different nick"@,
                    ),
                ],
            )
        }),
        speaking_room_tree(runtime, runtime + fragment, room.label) == TermView::Record(
            seq![
                field("actor"@, runtime + fragment),
                field("parent"@, runtime + "#root"@),
                field("kind"@, "room"@),
                field("protocol"@, "/ma/room/0.0.1"@),
                field("name"@, room.label),
                field("nick"@, room.label),
            ],
        ),
{
    assert(speaking_room_tree(runtime, runtime + fragment, room.label)->Record_0 =~= seq![
        field("actor"@, runtime + fragment),
        field("parent"@, runtime + "#root"@),
        field("kind"@, "room"@),
        field("protocol"@, "/ma/room/0.0.1"@),
        field("name"@, room.label),
        field("nick"@, room.label),
    ]);
}

// ---- whom news and events are for ----

/// News with something to tell is for every occupant of the room, and news with
/// nothing to tell is for nobody.
pub proof fn news_is_for_every_occupant(
    news: NewsView,
    root: RootView,
    name: Seq<char>,
    terms: Seq<TermView>,
    did: Seq<char>,
)
    requires
        brings(news, root, name, terms),
    ensures
        news.terms == terms,
        terms.len() == 0 ==> news.presence.len() == 0,
        terms.len() > 0 && room_key(root, name) is Some ==> {
            let presence = root.entities[room_key(root, name)->0].presence;
            &&& presence.contains_key(did) ==> news.presence.contains(presence[did])
            &&& lists_presence(news.presence, presence)
        },
        no_news().terms.len() == 0,
        no_news().presence.len() == 0,
{
    if terms.len() > 0 && room_key(root, name) is Some {
        let presence = root.entities[room_key(root, name)->0].presence;
        if presence.contains_key(did) {
            list_names_every_occupant(news.presence, presence, did);
        }
    }
}

/// An occupant that an event takes off the channel or renames there is one that
/// has the nick that left or was renamed.
pub proof fn event_concerns_the_owner_of_the_nick(
    room: RoomView,
    nick: Seq<char>,
    new_nick: Seq<char>,
    mirror: Seq<char>,
)
    requires
        taken_by_occupant(room, nick),
        concerns(room, EventView::Parted { nick }, mirror) || concerns(
            room,
            EventView::Quit { nick },
            mirror,
        ) || concerns(room, EventView::Renamed { old_nick: nick, new_nick }, mirror),
    ensures
        room.irc_mirrors.contains_key(mirror),
        same_ignoring_case(room.irc_mirrors[mirror], nick),
{
    lemma_taken(room, nick);
}

} // verus!
