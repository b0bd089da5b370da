//! What is told of the root: where exits lead, what rooms show of themselves, and
//! what a manifest restores.

use vstd::prelude::*;

use crate::channel::room::{
    restored_room, ExitView, ManifestView, PolicyView, PresenceView, RoomView,
};
use crate::collections::lists_keys;
use crate::ids::{drawn_addresses_have_ten_characters, is_id, ID_LEN};
use crate::order::{lex_le, sorted, values_are_listed_in_order};
use crate::root::command_laws::called;
use crate::root::dig::drawn;
use crate::root::model::{
    concourse, exit_at, exit_known, first_root, holds_exit, label_map, resolve, restored,
    restored_root, room_labels, traversed, url_of, RootView,
};
use crate::root::report::{looked_up, node_of, shows_rooms, snapshot_of, NodeView};

verus! {

// ---- exits ----

/// A destination that is a DID-URL is that address; a room's name is the
/// runtime's address with the room's fragment; anything else is no address.
pub proof fn destinations_become_addresses(
    root: RootView,
    runtime: Seq<char>,
    target: Seq<char>,
)
    ensures
        "did:"@.is_prefix_of(target) ==> url_of(root, runtime, target) == Some(target),
        !"did:"@.is_prefix_of(target) && resolve(root, target) is Some ==> url_of(
            root,
            runtime,
            target,
        ) == Some(runtime + resolve(root, target)->0),
        !"did:"@.is_prefix_of(target) && resolve(root, target) is None ==> url_of(
            root,
            runtime,
            target,
        ) is None,
{
}

pub proof fn lemma_exit_at(exits: Seq<ExitView>, fragment: Seq<char>)
    ensures
        0 <= exit_at(exits, fragment) <= exits.len(),
        forall|i: int|
            0 <= i < exit_at(exits, fragment) ==> (#[trigger] exits[i]).fragment != fragment,
        exit_at(exits, fragment) < exits.len() ==> exits[exit_at(exits, fragment)].fragment
            == fragment,
    decreases exits.len(),
{
    if exits.len() > 0 && exits[0].fragment != fragment {
        let rest = exits.drop_first();
        lemma_exit_at(rest, fragment);
        assert forall|i: int| 0 <= i < exit_at(exits, fragment) implies (
        #[trigger] exits[i]).fragment != fragment by {
            if i > 0 {
                assert(rest[i - 1] == exits[i]);
            }
        }
    }
}

/// An exit is known where one of the rooms has an exit with that address.
pub proof fn known_exit_is_in_some_room(root: RootView, fragment: Seq<char>)
    ensures
        exit_known(root, fragment) <==> exists|f: Seq<char>, i: int|
            #![trigger root.entities[f].exits[i]]
            root.entities.contains_key(f) && 0 <= i < root.entities[f].exits.len()
                && root.entities[f].exits[i].fragment == fragment,
{
    if exit_known(root, fragment) {
        let f = choose|f: Seq<char>| #[trigger] holds_exit(root, f, fragment);
        lemma_exit_at(root.entities[f].exits, fragment);
        let i = exit_at(root.entities[f].exits, fragment);
        assert(root.entities[f].exits[i].fragment == fragment);
    }
    if exists|f: Seq<char>, i: int|
        #![trigger root.entities[f].exits[i]]
        root.entities.contains_key(f) && 0 <= i < root.entities[f].exits.len()
            && root.entities[f].exits[i].fragment == fragment {
        let (f, i) = choose|f: Seq<char>, i: int|
            #![trigger root.entities[f].exits[i]]
            root.entities.contains_key(f) && 0 <= i < root.entities[f].exits.len()
                && root.entities[f].exits[i].fragment == fragment;
        lemma_exit_at(root.entities[f].exits, fragment);
        assert(holds_exit(root, f, fragment));
    }
}

/// Whoever walks through an exit is told where it leads: to its target, or
/// nowhere but the room where the exit is, if the target is empty or unknown. The
/// answer names the traveller, the exit and its direction.
pub proof fn exit_leads_to_its_target(
    root: RootView,
    f: Seq<char>,
    i: int,
    did: Seq<char>,
    runtime: Seq<char>,
)
    requires
        root.entities.contains_key(f),
        0 <= i < root.entities[f].exits.len(),
        forall|j: int|
            0 <= j < i ==> (#[trigger] root.entities[f].exits[j]).fragment
                != root.entities[f].exits[i].fragment,
    ensures
        ({
            let room = root.entities[f];
            let exit = room.exits[i];
            let told = traversed(root, f, exit.fragment, did, runtime);
            let url = url_of(root, runtime, exit.target);
            let leads = exit.target.len() > 0 && url is Some;
            &&& told.did == did
            &&& told.exit == runtime + exit.fragment
            &&& told.direction == exit.name
            &&& leads ==> told.parent == url->0 && told.text == "You go "@ + exit.name + "."@
            &&& !leads ==> told.parent == runtime + room.fragment && told.text
                == "This exit leads nowhere."@
        }),
{
    let exits = root.entities[f].exits;
    let fragment = exits[i].fragment;
    lemma_exit_at(exits, fragment);
    let n = exit_at(exits, fragment);
    if n < i {
        assert(exits[n].fragment == fragment);
    }
    assert(n == i);
}

// ---- rooms ----

/// A snapshot shows a room under its fragment, with what its props say, its
/// exits, and those that are in it.
pub proof fn snapshot_shows_the_room(room: RoomView, presence: Seq<PresenceView>)
    ensures
        ({
            let shown = snapshot_of(room, presence);
            &&& shown.fragment == room.fragment
            &&& shown.label == room.label
            &&& shown.name == called(room)
            &&& room.props.contains_key("description"@) ==> shown.description
                == room.props["description"@]
            &&& !room.props.contains_key("description"@) ==> shown.description.len() == 0
            &&& room.props.contains_key("owner"@) ==> shown.owner == Some(room.props["owner"@])
            &&& !room.props.contains_key("owner"@) ==> shown.owner is None
            &&& room.props.contains_key("locked"@) ==> shown.locked == Some(room.props["locked"@])
            &&& !room.props.contains_key("locked"@) ==> shown.locked is None
            &&& shown.presence == presence
            &&& shown.exits == room.exits
        }),
{
}

/// A snapshot lists the IRC-only users in order, each under the nick by which it
/// is known.
pub proof fn snapshot_lists_the_irc_users(
    room: RoomView,
    presence: Seq<PresenceView>,
    keys: Seq<Seq<char>>,
    nick: Seq<char>,
)
    requires
        lists_keys(keys, room.irc_occupants),
    ensures
        ({
            let shown = snapshot_of(room, presence).irc_occupants;
            &&& sorted(shown)
            &&& shown.contains(nick) <==> exists|k: Seq<char>| #[trigger]
                room.irc_occupants.contains_key(k) && room.irc_occupants[k] == nick
        }),
{
    assert forall|k: Seq<char>| #[trigger] keys.contains(k) <==> room.irc_occupants.contains_key(
        k,
    ) by {}
    values_are_listed_in_order(room.irc_occupants, keys);
}

/// The graph shows of a room its address, its label, its description, its exits,
/// its binding, how many are in it, and whether it is the concourse.
pub proof fn graph_shows_the_room(room: RoomView)
    ensures
        ({
            let node = node_of(room);
            &&& node.fragment == room.fragment
            &&& node.label == room.label
            &&& room.props.contains_key("description"@) ==> node.description
                == room.props["description"@]
            &&& !room.props.contains_key("description"@) ==> node.description.len() == 0
            &&& node.exits == room.exits
            &&& node.irc == room.irc
            &&& node.presence_count == room.presence.dom().len()
            &&& node.is_concourse <==> room.fragment == "#concourse"@
        }),
{
}

proof fn lemma_keys_of_part(
    keys: Seq<Seq<char>>,
    m: Map<Seq<char>, Seq<char>>,
) -> (kept: Seq<Seq<char>>)
    requires
        keys.no_duplicates(),
    ensures
        kept.no_duplicates(),
        forall|k: Seq<char>| #[trigger]
            kept.contains(k) <==> keys.contains(k) && m.contains_key(k),
    decreases keys.len(),
{
    if keys.len() == 0 {
        Seq::empty()
    } else {
        let rest = keys.drop_last();
        let last = keys.last();
        let before = lemma_keys_of_part(rest, m);
        assert(keys[keys.len() - 1] == last);
        assert forall|k: Seq<char>| #[trigger] keys.contains(k) <==> rest.contains(k) || k
            == last by {
            if rest.contains(k) {
                assert(keys[rest.index_of(k)] == k);
            }
            if keys.contains(k) && k != last {
                assert(rest[keys.index_of(k)] == k);
            }
        }
        assert(!rest.contains(last)) by {
            if rest.contains(last) {
                assert(keys[rest.index_of(last)] == last);
            }
        }
        if m.contains_key(last) {
            let kept = before.push(last);
            assert(!before.contains(last));
            assert(kept[before.len() as int] == last);
            assert forall|k: Seq<char>| #[trigger] kept.contains(k) <==> before.contains(k) || k
                == last by {
                if before.contains(k) {
                    assert(kept[before.index_of(k)] == k);
                }
                if kept.contains(k) && k != last {
                    assert(before[kept.index_of(k)] == k);
                }
            }
            assert forall|i: int, j: int|
                0 <= i < kept.len() && 0 <= j < kept.len() && i != j implies kept[i] != kept[j] by {
                if i == before.len() {
                    assert(before.contains(before[j]));
                } else if j == before.len() {
                    assert(before.contains(before[i]));
                }
            }
            kept
        } else {
            before
        }
    }
}

/// The rooms that are named on the concourse are all rooms but the concourse,
/// by their labels and in order.
pub proof fn every_other_room_is_named(root: RootView, keys: Seq<Seq<char>>, label: Seq<char>)
    requires
        lists_keys(keys, root.entities),
    ensures
        sorted(room_labels(root)),
        room_labels(root).contains(label) <==> exists|f: Seq<char>| #[trigger]
            root.entities.contains_key(f) && root.entities[f].fragment != "#concourse"@
                && root.entities[f].label == label,
{
    let named = label_map(root.entities);
    let kept = lemma_keys_of_part(keys, named);
    assert forall|k: Seq<char>| #[trigger] kept.contains(k) <==> named.contains_key(k) by {
        if named.contains_key(k) {
            assert(root.entities.contains_key(k));
        }
    }
    values_are_listed_in_order(named, kept);
    if room_labels(root).contains(label) {
        let f = choose|f: Seq<char>| #[trigger] named.contains_key(f) && named[f] == label;
        assert(root.entities.contains_key(f));
    }
    if exists|f: Seq<char>| #[trigger]
        root.entities.contains_key(f) && root.entities[f].fragment != "#concourse"@
            && root.entities[f].label == label {
        let f = choose|f: Seq<char>| #[trigger]
            root.entities.contains_key(f) && root.entities[f].fragment != "#concourse"@
                && root.entities[f].label == label;
        assert(named.contains_key(f));
    }
}

// ---- the first root, and the restored one ----

/// Whether a room is the concourse as it is born: named after itself, without a
/// description, owned by nobody, unlocked, open to everybody and empty.
pub open spec fn newborn_concourse(room: RoomView) -> bool {
    &&& room.fragment == "#concourse"@
    &&& room.label == "#concourse"@
    &&& forall|k: Seq<char>| #[trigger]
        room.props.contains_key(k) <==> k == "name"@ || k == "description"@ || k == "locked"@
    &&& room.props["name"@] == "#concourse"@
    &&& room.props["description"@].len() == 0
    &&& room.props["locked"@].len() == 0
    &&& room.exits.len() == 0
    &&& room.irc is None
    &&& !room.irc_active
    &&& room.irc_mirrors == Map::<Seq<char>, Seq<char>>::empty()
    &&& room.irc_occupants == Map::<Seq<char>, Seq<char>>::empty()
    &&& room.policy == (PolicyView {
        allow: true,
        allow_dids: Set::empty(),
        deny_dids: Set::empty(),
    })
    &&& room.presence == Map::<Seq<char>, PresenceView>::empty()
}

proof fn lemma_newborn_concourse()
    ensures
        newborn_concourse(crate::root::model::concourse_room()),
{
    reveal_strlit("name");
    reveal_strlit("description");
    reveal_strlit("locked");
    assert("name"@.len() == 4 && "description"@.len() == 11 && "locked"@.len() == 6);
}

/// A new root has the concourse and no other room, and the owners that it was
/// given.
pub proof fn new_root_has_the_concourse_alone(owners: Set<Seq<char>>)
    ensures
        ({
            let root = first_root(owners);
            &&& root.owners == owners
            &&& root.claimed_by is None
            &&& root.entities.dom() == set!["#concourse"@]
            &&& newborn_concourse(root.entities["#concourse"@])
            &&& root.labels == map!["#concourse"@ => "#concourse"@]
        }),
{
    lemma_newborn_concourse();
    let root = first_root(owners);
    assert(root.entities.dom() =~= set!["#concourse"@]);
    assert(root.labels =~= map!["#concourse"@ => "#concourse"@]);
}

/// Whether the room at `i` is the last one of a manifest under its fragment.
pub open spec fn last_under_fragment(rooms: Seq<ManifestView>, i: int) -> bool {
    0 <= i < rooms.len() && forall|j: int|
        i < j < rooms.len() ==> (#[trigger] rooms[j]).fragment != rooms[i].fragment
}

/// Whether the room at `i` is the last one of a manifest with its label.
pub open spec fn last_with_label(rooms: Seq<ManifestView>, i: int) -> bool {
    0 <= i < rooms.len() && forall|j: int|
        i < j < rooms.len() ==> (#[trigger] rooms[j]).label != rooms[i].label
}

proof fn lemma_last_restored(rooms: Seq<ManifestView>, i: int)
    ensures
        last_under_fragment(rooms, i) ==> restored(rooms).0.contains_key(rooms[i].fragment)
            && restored(rooms).0[rooms[i].fragment] == restored_room(rooms[i]),
        last_with_label(rooms, i) ==> restored(rooms).1.contains_key(rooms[i].label) && restored(
            rooms,
        ).1[rooms[i].label] == rooms[i].fragment,
    decreases rooms.len(),
{
    if rooms.len() > 0 && 0 <= i < rooms.len() - 1 {
        let rest = rooms.drop_last();
        let n = rooms.len() - 1;
        assert(rooms[n] == rooms.last());
        assert(rest[i] == rooms[i]);
        lemma_last_restored(rest, i);
        if last_under_fragment(rooms, i) {
            assert(rooms[n].fragment != rooms[i].fragment);
            assert forall|j: int| i < j < rest.len() implies (#[trigger] rest[j]).fragment
                != rest[i].fragment by {
                assert(rooms[j].fragment != rooms[i].fragment);
            }
        }
        if last_with_label(rooms, i) {
            assert(rooms[n].label != rooms[i].label);
            assert forall|j: int| i < j < rest.len() implies (#[trigger] rest[j]).label
                != rest[i].label by {
                assert(rooms[j].label != rooms[i].label);
            }
        }
    }
}

proof fn lemma_restored_keys(rooms: Seq<ManifestView>, f: Seq<char>, l: Seq<char>)
    ensures
        restored(rooms).0.contains_key(f) <==> exists|i: int|
            0 <= i < rooms.len() && (#[trigger] rooms[i]).fragment == f,
        restored(rooms).1.contains_key(l) <==> exists|i: int|
            0 <= i < rooms.len() && (#[trigger] rooms[i]).label == l,
    decreases rooms.len(),
{
    if rooms.len() > 0 {
        let rest = rooms.drop_last();
        let n = rooms.len() - 1;
        lemma_restored_keys(rest, f, l);
        assert(rooms[n] == rooms.last());
        assert forall|i: int| 0 <= i < rest.len() implies #[trigger] rest[i] == rooms[i] by {}
        if exists|i: int| 0 <= i < rest.len() && (#[trigger] rest[i]).fragment == f {
            let i = choose|i: int| 0 <= i < rest.len() && (#[trigger] rest[i]).fragment == f;
            assert(rooms[i].fragment == f);
        }
        if exists|i: int| 0 <= i < rooms.len() && (#[trigger] rooms[i]).fragment == f {
            let i = choose|i: int| 0 <= i < rooms.len() && (#[trigger] rooms[i]).fragment == f;
            if i < n {
                assert(rest[i].fragment == f);
            }
        }
        if exists|i: int| 0 <= i < rest.len() && (#[trigger] rest[i]).label == l {
            let i = choose|i: int| 0 <= i < rest.len() && (#[trigger] rest[i]).label == l;
            assert(rooms[i].label == l);
        }
        if exists|i: int| 0 <= i < rooms.len() && (#[trigger] rooms[i]).label == l {
            let i = choose|i: int| 0 <= i < rooms.len() && (#[trigger] rooms[i]).label == l;
            if i < n {
                assert(rest[i].label == l);
            }
        }
    }
}

/// A manifest restores each of its rooms under its fragment, and of two under one
/// fragment the later; it restores the labels likewise. The concourse is there in
/// any case, and no other room is.
pub proof fn manifest_restores_its_rooms(
    rooms: Seq<ManifestView>,
    owners: Set<Seq<char>>,
    f: Seq<char>,
    l: Seq<char>,
    i: int,
)
    ensures
        ({
            let back = restored_root(rooms, owners);
            let has_concourse = exists|k: int|
                0 <= k < rooms.len() && (#[trigger] rooms[k]).fragment == "#concourse"@;
            &&& back.owners == owners
            &&& back.claimed_by is None
            &&& back.entities.contains_key(f) <==> f == "#concourse"@ || exists|k: int|
                0 <= k < rooms.len() && (#[trigger] rooms[k]).fragment == f
            &&& last_under_fragment(rooms, i) ==> back.entities[rooms[i].fragment]
                == restored_room(rooms[i])
            &&& !has_concourse ==> newborn_concourse(back.entities["#concourse"@])
                && back.labels.contains_key("#concourse"@) && back.labels["#concourse"@]
                == "#concourse"@
            &&& l != "#concourse"@ || has_concourse ==> (back.labels.contains_key(l)
                <==> exists|k: int| 0 <= k < rooms.len() && (#[trigger] rooms[k]).label == l)
            &&& last_with_label(rooms, i) && (rooms[i].label != "#concourse"@ || has_concourse)
                ==> back.labels[rooms[i].label] == rooms[i].fragment
        }),
{
    lemma_newborn_concourse();
    lemma_restored_keys(rooms, f, l);
    lemma_restored_keys(rooms, "#concourse"@, l);
    lemma_last_restored(rooms, i);
}

/// The graph shows every room once, and no other, in the order of the labels.
pub proof fn graph_shows_every_room_once(
    nodes: Seq<NodeView>,
    entities: Map<Seq<char>, RoomView>,
    f: Seq<char>,
    i: int,
    j: int,
)
    requires
        shows_rooms(nodes, entities),
    ensures
        entities.contains_key(f) ==> nodes.contains(node_of(entities[f])),
        0 <= i < nodes.len() ==> exists|g: Seq<char>| #[trigger]
            entities.contains_key(g) && nodes[i] == node_of(entities[g]),
        nodes.len() == entities.dom().len(),
        0 <= i <= j < nodes.len() ==> lex_le(nodes[i].label, nodes[j].label),
{
    let keys = choose|keys: Seq<Seq<char>>| #[trigger]
        lists_keys(keys, entities) && nodes == looked_up(keys, entities).map_values(
            |room: RoomView| node_of(room),
        );
    if entities.contains_key(f) {
        assert(keys.contains(f));
        assert(nodes[keys.index_of(f)] == node_of(entities[f]));
    }
    if 0 <= i < nodes.len() {
        assert(keys.contains(keys[i]));
        assert(entities.contains_key(keys[i]));
    }
    assert(entities.dom() =~= keys.to_set());
    keys.unique_seq_to_set();
    let labels = nodes.map_values(|node: NodeView| node.label);
    if 0 <= i <= j < nodes.len() {
        assert(lex_le(labels[i], labels[j]));
    }
}

/// An address that is drawn for a new room is one that no room has.
pub proof fn drawn_address_is_free(root: RootView, fragment: Seq<char>, exit: Seq<char>)
    requires
        drawn(root, fragment, exit),
    ensures
        !root.entities.contains_key(fragment),
        "#room-"@.is_prefix_of(fragment),
        "#exit-"@.is_prefix_of(exit),
        exit.len() == "#exit-"@.len() + 10,
{
    let id = choose|id: Seq<char>|
        is_id(id) && id.len() >= ID_LEN && fragment == #[trigger] ("#room-"@ + id);
    assert(fragment.subrange(0, "#room-"@.len() as int) =~= "#room-"@);
    drawn_addresses_have_ten_characters(exit, Seq::empty());
}

} // verus!
