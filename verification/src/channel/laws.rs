//! What holds of rooms across operations.

use vstd::prelude::*;

use crate::channel::dig::{dig_options, dig_spec, valid_dig_target};
use crate::channel::endpoint::join_refusal;
use crate::channel::room::{
    admits, deactivated, durable, entered, entry_refusal, exit_named, fake_gone, has_exit, is_fake,
    is_mirror_nick, joinable, left, lemma_exit_named, lemma_exit_named_is, listed_fakes, locked,
    mirror_is, prop, restored_room, seen_joining, synced, with_exit, with_prop, without_exit,
    ExitView, ManifestView, RoomView,
};
use crate::text::{cut_once, lower, unescape};

verus! {

// ---- exits ----

/// After an exit was added, there is one of that name, and it leads where it
/// was pointed.
pub proof fn added_exit_is_there(
    exits: Seq<ExitView>,
    name: Seq<char>,
    target: Seq<char>,
    fragment: Seq<char>,
)
    ensures
        ({
            let after = with_exit(exits, name, target, fragment);
            let i = exit_named(after, name);
            &&& has_exit(after, name)
            &&& i < after.len()
            &&& after[i].name == name
            &&& after[i].target == target
        }),
{
    let after = with_exit(exits, name, target, fragment);
    let i = exit_named(exits, name);
    lemma_exit_named_is(exits, name);
    assert(after[i].name == name);
    assert forall|j: int| 0 <= j < i implies (#[trigger] after[j]).name != name by {
        assert(after[j] == exits[j]);
        assert(exits[j].name != name);
    }
    lemma_exit_named(after, name, i);
    lemma_exit_named_is(after, name);
}

/// Pointing an exit anew keeps its address, and adds no second exit of that
/// name.
pub proof fn repointed_exit_keeps_its_address(
    exits: Seq<ExitView>,
    name: Seq<char>,
    target: Seq<char>,
    fragment: Seq<char>,
)
    requires
        has_exit(exits, name),
    ensures
        ({
            let after = with_exit(exits, name, target, fragment);
            let i = exit_named(exits, name);
            &&& after.len() == exits.len()
            &&& exit_named(after, name) == i
            &&& after[i].fragment == exits[i].fragment
            &&& forall|j: int|
                0 <= j < exits.len() && j != i ==> after[j] == #[trigger] exits[j]
        }),
{
    let after = with_exit(exits, name, target, fragment);
    let i = exit_named(exits, name);
    lemma_exit_named_is(exits, name);
    assert forall|j: int| 0 <= j < i implies (#[trigger] after[j]).name != name by {
        assert(after[j] == exits[j]);
        assert(exits[j].name != name);
    }
    lemma_exit_named(after, name, i);
}

/// Adding the same exit a second time changes nothing, whatever address is
/// drawn for it.
pub proof fn adding_an_exit_is_idempotent(
    exits: Seq<ExitView>,
    name: Seq<char>,
    target: Seq<char>,
    fragment: Seq<char>,
    other: Seq<char>,
)
    ensures
        ({
            let once = with_exit(exits, name, target, fragment);
            with_exit(once, name, target, other) == once
        }),
{
    let once = with_exit(exits, name, target, fragment);
    added_exit_is_there(exits, name, target, fragment);
    let i = exit_named(once, name);
    lemma_exit_named_is(once, name);
    assert(ExitView { target, ..once[i] } == once[i]);
    assert(with_exit(once, name, target, other) =~= once);
}

/// Adding an exit puts it behind the others, or points the first one of that
/// name anew, which keeps its address; no other exit is touched.
pub proof fn adding_an_exit_points_it(
    exits: Seq<ExitView>,
    name: Seq<char>,
    target: Seq<char>,
    fragment: Seq<char>,
)
    ensures
        ({
            let after = with_exit(exits, name, target, fragment);
            &&& (forall|i: int| 0 <= i < exits.len() ==> (#[trigger] exits[i]).name != name)
                ==> after == exits.push(ExitView { name, target, fragment })
            &&& forall|i: int|
                0 <= i < exits.len() && (#[trigger] exits[i]).name == name && (forall|j: int|
                    0 <= j < i ==> (#[trigger] exits[j]).name != name) ==> after == exits.update(
                    i,
                    ExitView { name, target, fragment: exits[i].fragment },
                )
            &&& exists|i: int|
                0 <= i < after.len() && (#[trigger] after[i]).name == name && after[i].target
                    == target
        }),
{
    let after = with_exit(exits, name, target, fragment);
    let n = exit_named(exits, name);
    lemma_exit_named_is(exits, name);
    assert(after[n].name == name && after[n].target == target);
    assert forall|i: int|
        0 <= i < exits.len() && (#[trigger] exits[i]).name == name && (forall|j: int|
            0 <= j < i ==> (#[trigger] exits[j]).name != name) implies after == exits.update(
        i,
        ExitView { name, target, fragment: exits[i].fragment },
    ) by {
        lemma_exit_named(exits, name, i);
    }
    if forall|i: int| 0 <= i < exits.len() ==> (#[trigger] exits[i]).name != name {
        lemma_exit_named(exits, name, exits.len() as int);
    }
}

/// After an exit was removed, none of that name is left, and the others are
/// still there.
pub proof fn removed_exit_is_gone(exits: Seq<ExitView>, name: Seq<char>)
    ensures
        !has_exit(without_exit(exits, name), name),
        forall|other: Seq<char>|
            other != name && has_exit(exits, other) ==> #[trigger] has_exit(
                without_exit(exits, name),
                other,
            ),
    decreases exits.len(),
{
    if exits.len() > 0 {
        let before = exits.drop_last();
        let kept = without_exit(before, name);
        let after = without_exit(exits, name);
        removed_exit_is_gone(before, name);
        if has_exit(after, name) {
            let i = choose|i: int| 0 <= i < after.len() && (#[trigger] after[i]).name == name;
            if i < kept.len() {
                assert(kept[i].name == name);
            }
        }
        assert forall|other: Seq<char>| other != name && has_exit(exits, other) implies #[trigger]
            has_exit(after, other) by {
            let i = choose|i: int| 0 <= i < exits.len() && (#[trigger] exits[i]).name == other;
            if i < before.len() {
                assert(before[i].name == other);
                assert(has_exit(kept, other));
                let j = choose|j: int| 0 <= j < kept.len() && (#[trigger] kept[j]).name == other;
                assert(after[j].name == other);
            } else {
                assert(after[after.len() - 1].name == other);
            }
        }
    }
}

/// Removing an exit keeps every exit of another name, unchanged and in the same
/// order.
pub proof fn removing_an_exit_keeps_the_others(exits: Seq<ExitView>, name: Seq<char>)
    ensures
        without_exit(exits, name) == exits.filter(|e: ExitView| e.name != name),
    decreases exits.len(),
{
    reveal(Seq::filter);
    if exits.len() > 0 {
        removing_an_exit_keeps_the_others(exits.drop_last(), name);
    }
}

// ---- digging ----

proof fn lemma_dig_options(
    rest: Seq<Seq<char>>,
    description: Seq<char>,
    target: Option<Seq<char>>,
)
    requires
        target is Some ==> valid_dig_target(target->0),
    ensures
        match dig_options(rest, description, target) {
            Ok((_, found)) => found is Some ==> valid_dig_target(found->0),
            Err(_) => true,
        },
    decreases rest.len(),
{
    if rest.len() > 0 {
        if rest[0] == "to"@ {
            if rest.len() > 1 && valid_dig_target(rest[1]) {
                lemma_dig_options(rest.skip(2), description, Some(rest[1]));
            }
        } else {
            match cut_once(rest[0], ':') {
                Some((key, value)) => {
                    lemma_dig_options(rest.skip(1), unescape(value), target);
                },
                None => {},
            }
        }
    }
}

/// A `dig` that is accepted either links to a well-formed address of another
/// runtime, and describes nothing, or digs a room of this one.
pub proof fn accepted_dig_is_well_formed(tokens: Seq<Seq<char>>)
    ensures
        match dig_spec(tokens) {
            Ok(spec_) => spec_.target is Some ==> valid_dig_target(spec_.target->0)
                && spec_.description.len() == 0,
            Err(_) => true,
        },
{
    if tokens.len() > 0 {
        lemma_dig_options(tokens.skip(1), Seq::empty(), None);
    }
}

// ---- props and the lock ----

/// A prop that was set to a value reads as that value, and no other prop
/// changes.
pub proof fn set_prop_reads_back(
    room: RoomView,
    key: Seq<char>,
    value: Seq<char>,
    other: Seq<char>,
)
    requires
        value.len() > 0,
        other != key,
    ensures
        prop(with_prop(room, key, value), key) == Some(value),
        prop(with_prop(room, key, value), other) == prop(room, other),
{
}

/// Nobody enters a locked room.
pub proof fn locked_room_admits_nobody(room: RoomView, did: Seq<char>)
    requires
        locked(room),
    ensures
        entry_refusal(room, did) == Some("room is locked"@),
{
}

/// An unlocked room admits whom its policy admits.
pub proof fn unlocked_room_follows_its_policy(room: RoomView, did: Seq<char>)
    ensures
        ({
            let unlocked = with_prop(room, "locked"@, Seq::empty());
            &&& !locked(unlocked)
            &&& entry_refusal(unlocked, did) is None <==> admits(room.policy, did)
        }),
{
}

/// Who enters is in the room, and who leaves is not; nobody else is touched.
pub proof fn entering_and_leaving(
    room: RoomView,
    did: Seq<char>,
    ctx: Seq<char>,
    other: Seq<char>,
)
    requires
        other != did,
    ensures
        entered(room, did, ctx).presence.contains_key(did),
        entered(room, did, ctx).presence[did].ctx == ctx,
        !left(room, did).presence.contains_key(did),
        entered(room, did, ctx).presence.contains_key(other) == room.presence.contains_key(other),
        left(room, did).presence.contains_key(other) == room.presence.contains_key(other),
        !room.presence.contains_key(did) ==> left(entered(room, did, ctx), did) == room,
{
    if !room.presence.contains_key(did) {
        assert(left(entered(room, did, ctx), did).presence =~= room.presence);
    }
}

// ---- the channel ----

/// A nick of the room's own occupants never becomes an IRC-only user.
pub proof fn mirror_never_becomes_fake(room: RoomView, nick: Seq<char>)
    requires
        is_mirror_nick(room, nick),
    ensures
        seen_joining(room, nick) == room,
{
}

/// An IRC-only user that joins is listed, and is not once it is gone. The one
/// undoes the other.
pub proof fn fake_comes_and_goes(room: RoomView, nick: Seq<char>)
    requires
        !is_mirror_nick(room, nick),
    ensures
        is_fake(seen_joining(room, nick), nick),
        !is_fake(fake_gone(room, nick), nick),
        !is_fake(room, nick) ==> fake_gone(seen_joining(room, nick), nick) == room,
{
    if !is_fake(room, nick) {
        assert(fake_gone(seen_joining(room, nick), nick).irc_occupants =~= room.irc_occupants);
    }
}

/// Whether a listing names an IRC-only user under this lowercase nick.
pub open spec fn listed_as(room: RoomView, listed: Seq<Seq<char>>, key: Seq<char>) -> bool {
    exists|i: int|
        0 <= i < listed.len() && !is_mirror_nick(room, #[trigger] listed[i]) && lower(
            listed[i],
        ) == key
}

proof fn lemma_listed_fakes(room: RoomView, listed: Seq<Seq<char>>, key: Seq<char>)
    ensures
        listed_fakes(room, listed).contains_key(key) <==> listed_as(room, listed, key),
    decreases listed.len(),
{
    if listed.len() > 0 {
        let before = listed.drop_last();
        lemma_listed_fakes(room, before, key);
        if listed_as(room, before, key) {
            let i = choose|i: int|
                0 <= i < before.len() && !is_mirror_nick(room, #[trigger] before[i]) && lower(
                    before[i],
                ) == key;
            assert(listed[i] == before[i]);
        }
        if !is_mirror_nick(room, listed.last()) && lower(listed.last()) == key {
            assert(listed[listed.len() - 1] == listed.last());
        }
        if listed_as(room, listed, key) {
            let i = choose|i: int|
                0 <= i < listed.len() && !is_mirror_nick(room, #[trigger] listed[i]) && lower(
                    listed[i],
                ) == key;
            if i < before.len() {
                assert(before[i] == listed[i]);
            }
        }
    }
}

/// After a listing, the IRC-only users are exactly those that it names and that
/// are none of the room's own occupants. Who is on the channel as an occupant
/// stays so.
pub proof fn listing_decides_who_is_there(
    room: RoomView,
    listed: Seq<Seq<char>>,
    key: Seq<char>,
)
    ensures
        synced(room, listed).irc_occupants.contains_key(key) <==> listed_as(room, listed, key),
        synced(room, listed).irc_mirrors == room.irc_mirrors,
{
    lemma_listed_fakes(room, listed, key);
}

/// A second listing of the same nicks changes nothing.
pub proof fn listing_is_idempotent(room: RoomView, listed: Seq<Seq<char>>)
    ensures
        synced(synced(room, listed), listed) == synced(room, listed),
{
    let once = synced(room, listed);
    assert(forall|did: Seq<char>, nick: Seq<char>|
        mirror_is(once, did, nick) == mirror_is(room, did, nick));
    lemma_same_fakes(once, room, listed);
    assert(synced(once, listed).irc_occupants =~= once.irc_occupants);
}

proof fn lemma_same_fakes(a: RoomView, b: RoomView, listed: Seq<Seq<char>>)
    requires
        a.irc_mirrors == b.irc_mirrors,
    ensures
        listed_fakes(a, listed) == listed_fakes(b, listed),
    decreases listed.len(),
{
    if listed.len() > 0 {
        lemma_same_fakes(a, b, listed.drop_last());
        let nick = listed.last();
        if is_mirror_nick(a, nick) {
            let did = choose|did: Seq<char>| #[trigger] mirror_is(a, did, nick);
            assert(mirror_is(b, did, nick));
        }
        if is_mirror_nick(b, nick) {
            let did = choose|did: Seq<char>| #[trigger] mirror_is(b, did, nick);
            assert(mirror_is(a, did, nick));
        }
    }
}

/// Switching the channel off drops everything on it and keeps everything else:
/// the binding, so that the room can be connected again, and the occupants.
pub proof fn switched_off_room_keeps_its_binding(room: RoomView)
    ensures
        deactivated(room).irc == room.irc,
        deactivated(room).presence == room.presence,
        joinable(deactivated(room)) is None,
        room.irc is Some && join_refusal(room.irc->0) is None ==> joinable(
            RoomView { irc_active: true, ..deactivated(room) },
        ) == room.irc,
{
}

// ---- manifests ----

/// A manifest keeps a room's identity, props, exits and binding.
pub proof fn manifest_keeps_the_durable_part(manifest: ManifestView)
    ensures
        durable(restored_room(manifest)) == manifest,
{
}

/// Nothing transient survives in a manifest.
pub proof fn restored_room_is_empty(manifest: ManifestView)
    ensures
        restored_room(manifest).presence.dom() == Set::<Seq<char>>::empty(),
        restored_room(manifest).irc_mirrors.dom() == Set::<Seq<char>>::empty(),
        restored_room(manifest).irc_occupants.dom() == Set::<Seq<char>>::empty(),
        !restored_room(manifest).irc_active,
{
    assert(restored_room(manifest).presence.dom() =~= Set::<Seq<char>>::empty());
    assert(restored_room(manifest).irc_mirrors.dom() =~= Set::<Seq<char>>::empty());
    assert(restored_room(manifest).irc_occupants.dom() =~= Set::<Seq<char>>::empty());
}

} // verus!
