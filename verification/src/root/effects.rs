//! What the operations on the root do to its rooms, field by field and exit by
//! exit, and what they leave as it was.

use vstd::prelude::*;

use crate::channel::dig::SpecView;
use crate::channel::laws::adding_an_exit_points_it;
use crate::channel::room::{ExitView, PresenceView, RoomView};
use crate::root::dig::drawn;
use crate::root::laws::{lemma_drawn_is_not_concourse, lemma_new_room_is_open};
use crate::root::model::{
    arrive_step, concourse, create_step, delete_step, dig_entity_step, dig_from_step,
    dig_or_enter_step, enter_step, exits_elsewhere, linked, resolve, room_key, DigView, EnterView,
    RootView,
};
use crate::text::{just, lemma_strip_leading, strip_char};

verus! {

// ---- names ----

/// A name stands for the room under that fragment; else for the room with that
/// label; else, without the `#` before it, for the room with the label that is
/// left. Any other name stands for nothing.
pub proof fn names_stand_for_rooms(root: RootView, name: Seq<char>, label: Seq<char>)
    ensures
        root.entities.contains_key(name) ==> room_key(root, name) == Some(name),
        !root.entities.contains_key(name) && root.labels.contains_key(name) ==> resolve(root, name)
            == Some(root.labels[name]),
        !root.entities.contains_key(seq!['#'] + label) && !root.labels.contains_key(
            seq!['#'] + label,
        ) && root.labels.contains_key(label) ==> resolve(root, seq!['#'] + label) == Some(
            root.labels[label],
        ),
        resolve(root, name) is Some ==> root.entities.contains_key(name)
            || root.labels.contains_key(name) || exists|l: Seq<char>| #[trigger]
            root.labels.contains_key(l) && name == seq!['#'] + l,
        resolve(root, name) is Some && root.entities.contains_key(resolve(root, name)->0)
            ==> room_key(root, name) == resolve(root, name),
        room_key(root, name) is Some ==> room_key(root, name) == resolve(root, name)
            && root.entities.contains_key(room_key(root, name)->0),
{
    let hashed = seq!['#'] + label;
    assert(hashed.skip(1) =~= label);
    if name.len() > 0 && name[0] == '#' {
        assert(name =~= seq!['#'] + name.skip(1));
    }
}

// ---- what stays the same ----

/// Whether two roots differ in the room under `f` at most.
pub open spec fn differs_in_room(before: RootView, after: RootView, f: Seq<char>) -> bool {
    &&& after.owners == before.owners
    &&& after.claimed_by == before.claimed_by
    &&& after.labels == before.labels
    &&& after.entities.dom() == before.entities.dom()
    &&& forall|g: Seq<char>|
        g != f && before.entities.contains_key(g) ==> #[trigger] after.entities[g]
            == before.entities[g]
}

/// Whether `after` is `before` with an exit named `name` to `target`: the first
/// one of that name, which keeps its address, or else a new one at the end.
pub open spec fn pointed(
    before: Seq<ExitView>,
    after: Seq<ExitView>,
    name: Seq<char>,
    target: Seq<char>,
    address: Seq<char>,
) -> bool {
    &&& (forall|i: int| 0 <= i < before.len() ==> (#[trigger] before[i]).name != name) ==> after
        == before.push(ExitView { name, target, fragment: address })
    &&& forall|i: int|
        0 <= i < before.len() && (#[trigger] before[i]).name == name && (forall|j: int|
            0 <= j < i ==> (#[trigger] before[j]).name != name) ==> after == before.update(
            i,
            ExitView { name, target, fragment: before[i].fragment },
        )
}

// ---- entering ----

/// Who enters a room is in it afterwards with the given ctx, and nothing else
/// changes anywhere. A locked room and a policy that does not admit the caller
/// refuse the entry, and then nothing changes at all.
pub proof fn entering_adds_one_presence(
    root: RootView,
    did: Seq<char>,
    name: Seq<char>,
    ctx: Seq<char>,
)
    ensures
        room_key(root, name) is None ==> enter_step(root, did, name, ctx) == (
            root,
            Err::<EnterView, Seq<char>>("entity not found"@),
        ),
        room_key(root, name) is Some ==> {
            let f = room_key(root, name)->0;
            let room = root.entities[f];
            let (after, result) = enter_step(root, did, name, ctx);
            let lock = room.props.contains_key("locked"@) && room.props["locked"@].len() > 0;
            let unwanted = room.policy.deny_dids.contains(did) || !(room.policy.allow
                || room.policy.allow_dids.contains(did));
            &&& lock ==> result == Err::<EnterView, Seq<char>>("room is locked"@)
            &&& !lock && unwanted ==> result == Err::<EnterView, Seq<char>>(
                "entry denied by channel policy"@,
            )
            &&& lock || unwanted ==> after == root
            &&& !lock && !unwanted ==> {
                &&& result is Ok
                &&& result->Ok_0 is Joined <==> f != "#concourse"@
                &&& differs_in_room(root, after, f)
                &&& after.entities[f].presence == room.presence.insert(
                    did,
                    PresenceView { did, ctx },
                )
                &&& after.entities[f] == (RoomView {
                    presence: after.entities[f].presence,
                    ..room
                })
            }
        },
{
    if room_key(root, name) is Some {
        let after = enter_step(root, did, name, ctx).0;
        assert(after.entities.dom() =~= root.entities.dom());
    }
}

// ---- digging ----

/// The owner of a room that digs from it to a room of another runtime gets an
/// exit to that room out of this very room; every other room, the concourse
/// among them, stays exactly as it was, and so does everything else in the room.
pub proof fn digging_to_another_runtime_links_the_room_dug_from(
    root: RootView,
    caller: Seq<char>,
    source: Seq<char>,
    spec_: SpecView,
    fragment: Seq<char>,
    exit: Seq<char>,
)
    requires
        room_key(root, source) is Some,
        root.entities[room_key(root, source)->0].props.contains_key("owner"@),
        root.entities[room_key(root, source)->0].props["owner"@] == caller,
        spec_.target is Some,
    ensures
        ({
            let f = room_key(root, source)->0;
            let target = spec_.target->0;
            let (after, result) = dig_from_step(root, caller, source, spec_, fragment, exit);
            let room = after.entities[f];
            &&& result == Ok::<DigView, Seq<char>>(
                DigView::Foreign { target, label: spec_.label },
            )
            &&& differs_in_room(root, after, f)
            &&& room == (RoomView { exits: room.exits, ..root.entities[f] })
            &&& pointed(root.entities[f].exits, room.exits, spec_.label, target, exit)
            &&& exists|i: int|
                0 <= i < room.exits.len() && (#[trigger] room.exits[i]).name == spec_.label
                    && room.exits[i].target == target
        }),
{
    let f = room_key(root, source)->0;
    let after = dig_from_step(root, caller, source, spec_, fragment, exit).0;
    adding_an_exit_points_it(root.entities[f].exits, spec_.label, spec_.target->0, exit);
    assert(after.entities.dom() =~= root.entities.dom());
}

/// A runtime owner that digs from the concourse to a room of another runtime
/// gets an exit to that room out of the concourse; no other room changes.
pub proof fn digging_to_another_runtime_links_the_concourse(
    root: RootView,
    caller: Seq<char>,
    spec_: SpecView,
    fragment: Seq<char>,
    exit: Seq<char>,
)
    requires
        root.owners.contains(caller),
        root.entities.contains_key("#concourse"@),
        spec_.target is Some,
    ensures
        ({
            let f = "#concourse"@;
            let target = spec_.target->0;
            let (after, result) = dig_or_enter_step(root, caller, spec_, fragment, exit);
            let room = after.entities[f];
            &&& result == Ok::<DigView, Seq<char>>(
                DigView::Foreign { target, label: spec_.label },
            )
            &&& differs_in_room(root, after, f)
            &&& room == (RoomView { exits: room.exits, ..root.entities[f] })
            &&& pointed(root.entities[f].exits, room.exits, spec_.label, target, exit)
            &&& exists|i: int|
                0 <= i < room.exits.len() && (#[trigger] room.exits[i]).name == spec_.label
                    && room.exits[i].target == target
        }),
{
    let f = "#concourse"@;
    let after = dig_or_enter_step(root, caller, spec_, fragment, exit).0;
    adding_an_exit_points_it(root.entities[f].exits, spec_.label, spec_.target->0, exit);
    assert(after.entities.dom() =~= root.entities.dom());
}

/// Whether a room is as it is born: under its fragment and its label, named
/// after its label, described, owned, unlocked, open to everybody, without exits
/// and without a channel.
pub open spec fn newborn(
    room: RoomView,
    fragment: Seq<char>,
    spec_: SpecView,
    owner: Seq<char>,
) -> bool {
    &&& room.fragment == fragment
    &&& room.label == spec_.label
    &&& forall|k: Seq<char>| #[trigger]
        room.props.contains_key(k) <==> k == "name"@ || k == "description"@ || k == "locked"@ || k
            == "owner"@
    &&& room.props["name"@] == spec_.label
    &&& room.props["description"@] == spec_.description
    &&& room.props["locked"@].len() == 0
    &&& room.props["owner"@] == owner
    &&& room.exits.len() == 0
    &&& room.irc is None
    &&& !room.irc_active
    &&& forall|k: Seq<char>| !#[trigger] room.irc_mirrors.contains_key(k)
    &&& forall|k: Seq<char>| !#[trigger] room.irc_occupants.contains_key(k)
    &&& room.policy.allow
    &&& forall|k: Seq<char>| !#[trigger] room.policy.deny_dids.contains(k)
}

/// Whether `after` is `before` with a newborn room under `fragment`, to which an
/// exit of its label leads out of the room `source`, unless that room has an
/// exit of this name already. Every other room is as it was.
pub open spec fn gains_room(
    before: RootView,
    after: RootView,
    source: Seq<char>,
    spec_: SpecView,
    fragment: Seq<char>,
    exit: Seq<char>,
    owner: Seq<char>,
) -> bool {
    let old_exits = before.entities[source].exits;
    &&& after.owners == before.owners
    &&& after.claimed_by == before.claimed_by
    &&& after.labels == before.labels.insert(spec_.label, fragment)
    &&& after.entities.dom() == before.entities.dom().insert(fragment)
    &&& newborn(after.entities[fragment], fragment, spec_, owner)
    &&& forall|g: Seq<char>|
        g != source && before.entities.contains_key(g) ==> #[trigger] after.entities[g]
            == before.entities[g]
    &&& after.entities[source] == (RoomView {
        exits: after.entities[source].exits,
        ..before.entities[source]
    })
    &&& (exists|i: int| 0 <= i < old_exits.len() && (#[trigger] old_exits[i]).name == spec_.label)
        ==> after.entities[source].exits == old_exits
    &&& (forall|i: int| 0 <= i < old_exits.len() ==> (#[trigger] old_exits[i]).name != spec_.label)
        ==> after.entities[source].exits == old_exits.push(
        ExitView { name: spec_.label, target: fragment, fragment: exit },
    )
}

/// Whether a label is the one of the concourse, with any number of `#`s before
/// it.
pub open spec fn reserved(label: Seq<char>) -> bool {
    let n = label.len() - "concourse"@.len();
    &&& n >= 0
    &&& label.skip(n) == "concourse"@
    &&& forall|i: int| 0 <= i < n ==> label[i] == '#'
}

proof fn lemma_reserved(label: Seq<char>)
    ensures
        reserved(label) <==> strip_char(label, '#') == strip_char(concourse(), '#'),
    decreases label.len(),
{
    reveal_strlit("concourse");
    reveal_strlit("#concourse");
    let word = "concourse"@;
    lemma_strip_leading(concourse(), just('#'), 1);
    assert(concourse().skip(1) =~= word);
    if reserved(label) {
        let n = label.len() - word.len();
        assert(label.skip(n)[0] == 'c');
        lemma_strip_leading(label, just('#'), n);
    }
    if strip_char(label, '#') == word {
        if label.len() > 0 && label[0] == '#' {
            let rest = label.drop_first();
            lemma_reserved(rest);
            let n = label.len() - word.len();
            assert(label.skip(n) =~= rest.skip(n - 1));
            assert forall|i: int| 0 <= i < n implies label[i] == '#' by {
                if i > 0 {
                    assert(rest[i - 1] == label[i]);
                }
            }
        } else {
            assert(label.skip(0) =~= label);
        }
    }
}

proof fn lemma_gains_room(
    root: RootView,
    source: Seq<char>,
    spec_: SpecView,
    fragment: Seq<char>,
    exit: Seq<char>,
    owner: Seq<char>,
)
    requires
        root.entities.contains_key(source),
        !root.entities.contains_key(fragment),
        create_step(root, owner, spec_, fragment).1 is Ok,
    ensures
        gains_room(
            root,
            linked(
                create_step(root, owner, spec_, fragment).0,
                source,
                spec_.label,
                fragment,
                exit,
            ),
            source,
            spec_,
            fragment,
            exit,
            owner,
        ),
{
    let made = create_step(root, owner, spec_, fragment).0;
    let after = linked(made, source, spec_.label, fragment, exit);
    assert(after.entities.dom() =~= root.entities.dom().insert(fragment));
    let exits = root.entities[source].exits;
    assert(made.entities[source].exits == exits);
    adding_an_exit_points_it(exits, spec_.label, fragment, exit);
    reveal_strlit("name");
    reveal_strlit("description");
    reveal_strlit("locked");
    reveal_strlit("owner");
    assert("name"@.len() == 4 && "description"@.len() == 11);
    assert("locked"@.len() == 6 && "owner"@.len() == 5);
    let room = after.entities[fragment];
    assert(room.props["name"@] == spec_.label);
    assert(room.props["owner"@] == owner);
}

/// A runtime owner that digs an entity gets a newborn room of its own under the
/// address that was drawn, linked from the concourse, and no other room changes.
/// The concourse's own name is refused, and so is a label that is taken.
pub proof fn digging_an_entity_adds_one_room(
    root: RootView,
    caller: Seq<char>,
    spec_: SpecView,
    fragment: Seq<char>,
    exit: Seq<char>,
)
    requires
        root.owners.contains(caller),
        root.entities.contains_key("#concourse"@),
        !root.entities.contains_key(fragment),
    ensures
        ({
            let (after, result) = dig_entity_step(root, caller, spec_, fragment, exit);
            let taken = root.labels.contains_key(spec_.label);
            &&& reserved(spec_.label) ==> (after, result) == (
                root,
                Err::<(), Seq<char>>("#concourse is a reserved room"@),
            )
            &&& !reserved(spec_.label) && taken ==> (after, result) == (
                root,
                Err::<(), Seq<char>>("entity label already exists"@),
            )
            &&& !reserved(spec_.label) && !taken ==> result == Ok::<(), Seq<char>>(())
                && gains_room(root, after, "#concourse"@, spec_, fragment, exit, caller)
        }),
{
    lemma_reserved(spec_.label);
    if !reserved(spec_.label) && !root.labels.contains_key(spec_.label) {
        lemma_gains_room(root, "#concourse"@, spec_, fragment, exit, caller);
    }
}

/// Whether `after` is `before` with `did` in the room under `f`, its ctx saying
/// nothing.
pub open spec fn comes_in(
    before: RootView,
    after: RootView,
    f: Seq<char>,
    did: Seq<char>,
) -> bool {
    let room = before.entities[f];
    &&& differs_in_room(before, after, f)
    &&& after.entities[f] == (RoomView {
        presence: room.presence.insert(did, PresenceView { did, ctx: "{}"@ }),
        ..room
    })
}

/// A runtime owner that digs a label that stands for nothing gets that room,
/// linked from the concourse, is in it, and is told its address, its name and
/// its description.
pub proof fn digging_a_new_label_makes_and_enters_the_room(
    root: RootView,
    caller: Seq<char>,
    spec_: SpecView,
    fragment: Seq<char>,
    exit: Seq<char>,
)
    requires
        drawn(root, fragment, exit),
        root.owners.contains(caller),
        root.entities.contains_key("#concourse"@),
        spec_.target is None,
        resolve(root, spec_.label) is None,
        !reserved(spec_.label),
    ensures
        ({
            let (after, result) = dig_or_enter_step(root, caller, spec_, fragment, exit);
            &&& result == Ok::<DigView, Seq<char>>(
                DigView::Local {
                    fragment,
                    name: spec_.label,
                    description: spec_.description,
                },
            )
            &&& exists|dug: RootView|
                gains_room(root, dug, "#concourse"@, spec_, fragment, exit, caller) && #[trigger]
                comes_in(dug, after, fragment, caller)
        }),
{
    lemma_reserved(spec_.label);
    lemma_drawn_is_not_concourse(root, fragment, exit);
    lemma_gains_room(root, "#concourse"@, spec_, fragment, exit, caller);
    lemma_new_room_is_open(root, caller, spec_, concourse(), fragment, exit, spec_.label);
    let dug = dig_entity_step(root, caller, spec_, fragment, exit).0;
    let after = arrive_step(dug, caller, spec_.label).0;
    assert(after.entities.dom() =~= dug.entities.dom());
    assert(newborn(dug.entities[fragment], fragment, spec_, caller));
    assert(after.entities[fragment].props == dug.entities[fragment].props);
    assert(dug.entities[fragment].props.contains_key("name"@));
    assert(dug.entities[fragment].props.contains_key("description"@));
    assert(comes_in(dug, after, fragment, caller));
}

/// Digging a label that stands for a room enters that room, where it can be
/// entered, and tells its address, its name and its description.
pub proof fn digging_a_known_label_enters_the_room(
    root: RootView,
    caller: Seq<char>,
    spec_: SpecView,
    fragment: Seq<char>,
    exit: Seq<char>,
)
    requires
        spec_.target is None,
        room_key(root, spec_.label) is Some,
    ensures
        ({
            let f = room_key(root, spec_.label)->0;
            let room = root.entities[f];
            let (after, result) = dig_or_enter_step(root, caller, spec_, fragment, exit);
            let entry = enter_step(root, caller, spec_.label, "{}"@).1;
            &&& entry is Err ==> after == root && result is Err && result->Err_0 == entry->Err_0
            &&& entry is Ok ==> {
                &&& comes_in(root, after, f, caller)
                &&& result == Ok::<DigView, Seq<char>>(
                    DigView::Local {
                        fragment: room.fragment,
                        name: if room.props.contains_key("name"@) {
                            room.props["name"@]
                        } else {
                            room.label
                        },
                        description: if room.props.contains_key("description"@) {
                            room.props["description"@]
                        } else {
                            Seq::empty()
                        },
                    },
                )
            }
        }),
{
    entering_adds_one_presence(root, caller, spec_.label, "{}"@);
}

/// The owner of a room that digs a free label from it gets a newborn room of its
/// own, linked from the room dug from, and is in it. No other room changes, the
/// concourse among them.
pub proof fn digging_from_a_room_links_that_room(
    root: RootView,
    caller: Seq<char>,
    source: Seq<char>,
    spec_: SpecView,
    fragment: Seq<char>,
    exit: Seq<char>,
)
    requires
        drawn(root, fragment, exit),
        room_key(root, source) is Some,
        root.entities[room_key(root, source)->0].props.contains_key("owner"@),
        root.entities[room_key(root, source)->0].props["owner"@] == caller,
        spec_.target is None,
    ensures
        ({
            let f = room_key(root, source)->0;
            let (after, result) = dig_from_step(root, caller, source, spec_, fragment, exit);
            let taken = root.labels.contains_key(spec_.label);
            &&& reserved(spec_.label) ==> (after, result) == (
                root,
                Err::<DigView, Seq<char>>("#concourse is a reserved room"@),
            )
            &&& !reserved(spec_.label) && taken ==> (after, result) == (
                root,
                Err::<DigView, Seq<char>>("entity label already exists"@),
            )
            &&& !reserved(spec_.label) && !taken ==> {
                &&& result == Ok::<DigView, Seq<char>>(
                    DigView::Local {
                        fragment,
                        name: spec_.label,
                        description: spec_.description,
                    },
                )
                &&& exists|dug: RootView|
                    gains_room(root, dug, f, spec_, fragment, exit, caller) && #[trigger]
                    comes_in(dug, after, fragment, caller)
            }
        }),
{
    let f = room_key(root, source)->0;
    lemma_reserved(spec_.label);
    if !reserved(spec_.label) && !root.labels.contains_key(spec_.label) {
        lemma_gains_room(root, f, spec_, fragment, exit, caller);
        lemma_new_room_is_open(root, caller, spec_, f, fragment, exit, fragment);
        let made = create_step(root, caller, spec_, fragment).0;
        let dug = linked(made, f, spec_.label, fragment, exit);
        let after = arrive_step(dug, caller, fragment).0;
        assert(after.entities.dom() =~= dug.entities.dom());
        assert(newborn(dug.entities[fragment], fragment, spec_, caller));
        assert(after.entities[fragment].props == dug.entities[fragment].props);
        assert(dug.entities[fragment].props.contains_key("name"@));
        assert(dug.entities[fragment].props.contains_key("description"@));
        assert(comes_in(dug, after, fragment, caller));
    }
}

/// Digging from a room that is not there, or by someone who does not own it, is
/// refused, and nothing changes.
pub proof fn digging_from_a_foreign_room_is_refused(
    root: RootView,
    caller: Seq<char>,
    source: Seq<char>,
    spec_: SpecView,
    fragment: Seq<char>,
    exit: Seq<char>,
)
    ensures
        room_key(root, source) is None ==> dig_from_step(
            root,
            caller,
            source,
            spec_,
            fragment,
            exit,
        ) == (root, Err::<DigView, Seq<char>>("entity not found"@)),
        room_key(root, source) is Some && !({
            let props = root.entities[room_key(root, source)->0].props;
            props.contains_key("owner"@) && props["owner"@] == caller
        }) ==> dig_from_step(root, caller, source, spec_, fragment, exit) == (
            root,
            Err::<DigView, Seq<char>>("only the room owner may dig from this room"@),
        ),
{
}

// ---- deleting ----

proof fn lemma_elsewhere_is_filter(exits: Seq<ExitView>, fragment: Seq<char>, label: Seq<char>)
    ensures
        exits_elsewhere(exits, fragment, label) == exits.filter(
            |e: ExitView|
                e.target != fragment && e.target != label && !fragment.is_suffix_of(e.target),
        ),
    decreases exits.len(),
{
    reveal(Seq::filter);
    if exits.len() > 0 {
        lemma_elsewhere_is_filter(exits.drop_last(), fragment, label);
    }
}

/// A deletion takes away the room and, out of the other rooms, the exits that
/// lead to its fragment or its label or end in its fragment. Every other exit of
/// every other room is still there, unchanged and in the same order, and so is
/// everything else.
pub proof fn deleting_keeps_every_other_exit(root: RootView, caller: Seq<char>, name: Seq<char>)
    requires
        root.owners.contains(caller),
        room_key(root, name) is Some,
        room_key(root, name)->0 != "#concourse"@,
    ensures
        ({
            let f = room_key(root, name)->0;
            let label = root.entities[f].label;
            let (after, result) = delete_step(root, caller, name);
            &&& result == Ok::<(), Seq<char>>(())
            &&& after.owners == root.owners
            &&& after.claimed_by == root.claimed_by
            &&& after.labels == root.labels.remove(label)
            &&& after.entities.dom() == root.entities.dom().remove(f)
            &&& forall|g: Seq<char>|
                g != f && root.entities.contains_key(g) ==> {
                    let kept = (#[trigger] after.entities[g]).exits;
                    &&& after.entities[g] == (RoomView { exits: kept, ..root.entities[g] })
                    &&& kept == root.entities[g].exits.filter(
                        |e: ExitView|
                            e.target != f && e.target != label && !f.is_suffix_of(e.target),
                    )
                }
        }),
{
    let f = room_key(root, name)->0;
    let label = root.entities[f].label;
    let after = delete_step(root, caller, name).0;
    assert(after.entities.dom() =~= root.entities.dom().remove(f));
    assert forall|g: Seq<char>| g != f && root.entities.contains_key(g) implies {
        let kept = (#[trigger] after.entities[g]).exits;
        &&& after.entities[g] == (RoomView { exits: kept, ..root.entities[g] })
        &&& kept == root.entities[g].exits.filter(
            |e: ExitView| e.target != f && e.target != label && !f.is_suffix_of(e.target),
        )
    } by {
        lemma_elsewhere_is_filter(root.entities[g].exits, f, label);
    }
}

/// The concourse cannot be deleted, nor can what is not there; nothing changes.
pub proof fn some_deletions_are_refused(root: RootView, caller: Seq<char>, name: Seq<char>)
    requires
        root.owners.contains(caller),
    ensures
        resolve(root, name) is None ==> delete_step(root, caller, name) == (
            root,
            Err::<(), Seq<char>>("entity not found"@),
        ),
        resolve(root, name) == Some("#concourse"@) ==> delete_step(root, caller, name) == (
            root,
            Err::<(), Seq<char>>("#concourse cannot be deleted"@),
        ),
{
}

} // verus!
