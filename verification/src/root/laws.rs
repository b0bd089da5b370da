//! What holds of the root across operations.

use vstd::prelude::*;

use crate::channel::dig::{dig_spec, SpecView};
use crate::channel::laws::added_exit_is_there;
use crate::channel::room::{
    dug_room, durable, entered, entry_refusal, exit_named, has_exit, lock_secret, locked,
    policy_for_all, prop, restored_room, room_owner, with_exit, with_prop, without_exit, ExitView,
    ManifestView, RoomView,
};
use crate::collections::lists_keys;
use crate::ids::{is_id, ID_LEN};
use crate::order::lemma_sorted_unique_order;
use crate::root::dig::drawn;
use crate::root::model::{
    arrive_step, claim_step, command_args, command_word, concourse, concourse_command_step,
    concourse_dispatch, create_step, delete_command_step, delete_step, describe_step,
    dig_command_step, dig_entity_step, dig_from_step, dig_or_enter_step, enter_command_step,
    enter_step, exit_add_step, exit_at, exit_del_step, exits_elsewhere, first_root, holds_exit,
    leads_to, link_step, linked, owners_only, prop_step, resolve, restored, restored_root,
    room_command_of, room_command_step, room_key, room_step, traversed, unlock_step, url_of,
    well_formed, with_room, DigView, EnterView, RootView,
};
use crate::root::report::{keeps_rooms, looked_up};
use crate::text::{join, strip_char, trim, unescape, words};

verus! {

// ---- the root stays well formed ----

pub proof fn lemma_same_room(root: RootView, f: Seq<char>)
    requires
        root.entities.contains_key(f),
    ensures
        with_room(root, f, root.entities[f]) == root,
{
    assert(with_room(root, f, root.entities[f]).entities =~= root.entities);
}

/// A room may change in everything but its fragment and its label.
pub proof fn changed_room_keeps_the_root_well_formed(
    root: RootView,
    f: Seq<char>,
    room: RoomView,
)
    requires
        well_formed(root),
        root.entities.contains_key(f),
        room.fragment == root.entities[f].fragment,
        room.label == root.entities[f].label,
    ensures
        well_formed(with_room(root, f, room)),
{
    let after = with_room(root, f, room);
    assert forall|g: Seq<char>| #[trigger] after.entities.contains_key(g) implies {
        let room = after.entities[g];
        &&& room.fragment == g
        &&& after.labels.contains_key(room.label)
        &&& after.labels[room.label] == g
    } by {
        assert(root.entities.contains_key(g));
    }
    assert forall|l: Seq<char>| #[trigger] after.labels.contains_key(l) implies {
        let g = after.labels[l];
        &&& after.entities.contains_key(g)
        &&& after.entities[g].label == l
    } by {
        assert(root.labels.contains_key(l));
    }
}

/// A new root is well formed.
pub proof fn first_root_is_well_formed(owners: Set<Seq<char>>)
    ensures
        well_formed(first_root(owners)),
{
}

/// The concourse can always be found.
pub proof fn concourse_is_always_found(root: RootView)
    requires
        well_formed(root),
    ensures
        room_key(root, concourse()) == Some(concourse()),
{
}

/// In a well-formed root every room is found by its fragment and by its label,
/// and whatever resolves is a room.
pub proof fn every_room_is_found(root: RootView, f: Seq<char>, name: Seq<char>)
    requires
        well_formed(root),
        root.entities.contains_key(f),
    ensures
        room_key(root, f) == Some(f),
        root.entities.contains_key(root.entities[f].label) || room_key(
            root,
            root.entities[f].label,
        ) == Some(f),
        resolve(root, name) is Some ==> room_key(root, name) == resolve(root, name),
{
    if resolve(root, name) is Some && !root.entities.contains_key(name) {
        if root.labels.contains_key(name) {
            assert(root.entities.contains_key(root.labels[name]));
        } else {
            assert(root.labels.contains_key(name.skip(1)));
        }
    }
}

pub proof fn entering_keeps_the_root_well_formed(
    root: RootView,
    did: Seq<char>,
    name: Seq<char>,
    ctx: Seq<char>,
)
    requires
        well_formed(root),
    ensures
        well_formed(enter_step(root, did, name, ctx).0),
{
    match room_key(root, name) {
        Some(f) => {
            changed_room_keeps_the_root_well_formed(
                root,
                f,
                entered(root.entities[f], did, ctx),
            );
        },
        None => {},
    }
}

proof fn lemma_created(root: RootView, owner: Seq<char>, spec_: SpecView, f: Seq<char>)
    requires
        well_formed(root),
        !root.entities.contains_key(f),
    ensures
        well_formed(create_step(root, owner, spec_, f).0),
{
    let (after, result) = create_step(root, owner, spec_, f);
    if result is Ok {
        assert forall|g: Seq<char>| #[trigger] after.entities.contains_key(g) implies {
            let room = after.entities[g];
            &&& room.fragment == g
            &&& after.labels.contains_key(room.label)
            &&& after.labels[room.label] == g
        } by {
            if g != f {
                assert(root.entities.contains_key(g));
            }
        }
        assert forall|l: Seq<char>| #[trigger] after.labels.contains_key(l) implies {
            let g = after.labels[l];
            &&& after.entities.contains_key(g)
            &&& after.entities[g].label == l
        } by {
            if l != spec_.label {
                assert(root.labels.contains_key(l));
            }
        }
    }
}

proof fn lemma_linked(
    root: RootView,
    source: Seq<char>,
    label: Seq<char>,
    target: Seq<char>,
    exit: Seq<char>,
)
    requires
        well_formed(root),
    ensures
        well_formed(linked(root, source, label, target, exit)),
        well_formed(link_step(root, source, label, target, exit).0),
{
    if root.entities.contains_key(source) {
        let room = root.entities[source];
        changed_room_keeps_the_root_well_formed(
            root,
            source,
            RoomView { exits: with_exit(room.exits, label, target, exit), ..room },
        );
    }
}

proof fn lemma_arrived(root: RootView, caller: Seq<char>, name: Seq<char>)
    requires
        well_formed(root),
    ensures
        well_formed(arrive_step(root, caller, name).0),
{
    entering_keeps_the_root_well_formed(root, caller, name, "{}"@);
}

/// Digging keeps the root well formed, from the concourse and from a room.
pub proof fn digging_keeps_the_root_well_formed(
    root: RootView,
    caller: Seq<char>,
    source: Seq<char>,
    spec_: SpecView,
    fragment: Seq<char>,
    exit: Seq<char>,
)
    requires
        well_formed(root),
        drawn(root, fragment, exit),
    ensures
        well_formed(dig_entity_step(root, caller, spec_, fragment, exit).0),
        well_formed(dig_or_enter_step(root, caller, spec_, fragment, exit).0),
        well_formed(dig_from_step(root, caller, source, spec_, fragment, exit).0),
{
    lemma_created(root, caller, spec_, fragment);
    let created = create_step(root, caller, spec_, fragment).0;
    lemma_linked(created, concourse(), spec_.label, fragment, exit);
    let dug = dig_entity_step(root, caller, spec_, fragment, exit).0;
    lemma_arrived(root, caller, spec_.label);
    lemma_arrived(dug, caller, spec_.label);
    match spec_.target {
        Some(target) => {
            lemma_linked(root, concourse(), spec_.label, target, exit);
        },
        None => {},
    }
    match room_key(root, source) {
        Some(f) => {
            match spec_.target {
                Some(target) => {
                    lemma_linked(root, f, spec_.label, target, exit);
                },
                None => {
                    lemma_linked(created, f, spec_.label, fragment, exit);
                    lemma_arrived(
                        linked(created, f, spec_.label, fragment, exit),
                        caller,
                        fragment,
                    );
                },
            }
        },
        None => {},
    }
}

pub proof fn deleting_keeps_the_root_well_formed(
    root: RootView,
    caller: Seq<char>,
    name: Seq<char>,
)
    requires
        well_formed(root),
    ensures
        well_formed(delete_step(root, caller, name).0),
{
    let (after, result) = delete_step(root, caller, name);
    if result is Ok {
        let f = resolve(root, name)->0;
        let label = root.entities[f].label;
        assert forall|g: Seq<char>| #[trigger] after.entities.contains_key(g) implies {
            let room = after.entities[g];
            &&& room.fragment == g
            &&& after.labels.contains_key(room.label)
            &&& after.labels[room.label] == g
        } by {
            assert(root.entities.contains_key(g));
        }
        assert forall|l: Seq<char>| #[trigger] after.labels.contains_key(l) implies {
            let g = after.labels[l];
            &&& after.entities.contains_key(g)
            &&& after.entities[g].label == l
        } by {
            assert(root.labels.contains_key(l));
            assert(root.labels[l] != f);
        }
    }
}

proof fn lemma_room_step(
    room: RoomView,
    caller: Seq<char>,
    runtime_owner: bool,
    command: Seq<char>,
    args: Seq<Seq<char>>,
)
    ensures
        ({
            let (after, result) = room_step(room, caller, runtime_owner, command, args);
            &&& after.fragment == room.fragment
            &&& after.label == room.label
            &&& result is Err ==> after == room
        }),
{
}

/// A command inside a room keeps the root well formed.
pub proof fn room_command_keeps_the_root_well_formed(
    root: RootView,
    caller: Seq<char>,
    name: Seq<char>,
    input: Seq<char>,
)
    requires
        well_formed(root),
    ensures
        well_formed(room_command_step(root, caller, name, input).0),
{
    let command = room_command_of(input);
    let runtime_owner = root.owners.contains(caller);
    match room_key(root, name) {
        Some(f) => {
            let args = command_args(input);
            lemma_room_step(root.entities[f], caller, runtime_owner, command, args);
            changed_room_keeps_the_root_well_formed(
                root,
                f,
                room_step(root.entities[f], caller, runtime_owner, command, args).0,
            );
        },
        None => {},
    }
}

/// A command on the concourse keeps the root well formed.
pub proof fn concourse_command_keeps_the_root_well_formed(
    root: RootView,
    caller: Seq<char>,
    input: Seq<char>,
    fragment: Seq<char>,
    exit: Seq<char>,
)
    requires
        well_formed(root),
        drawn(root, fragment, exit),
    ensures
        well_formed(concourse_command_step(root, caller, input, fragment, exit).0),
{
    let text = trim(input);
    let args = command_args(text);
    match dig_spec(args) {
        Ok(spec_) => {
            digging_keeps_the_root_well_formed(root, caller, concourse(), spec_, fragment, exit);
        },
        Err(_) => {},
    }
    if args.len() > 0 {
        match room_key(root, args[0]) {
            Some(f) => {
                let room = root.entities[f];
                changed_room_keeps_the_root_well_formed(
                    root,
                    f,
                    with_prop(
                        room,
                        "description"@,
                        unescape(join(args.skip(1), " "@)),
                    ),
                );
                if args.len() > 1 {
                    changed_room_keeps_the_root_well_formed(
                        root,
                        f,
                        RoomView { exits: without_exit(room.exits, args[1]), ..room },
                    );
                    lemma_same_room(root, f);
                }
                if args.len() > 2 {
                    changed_room_keeps_the_root_well_formed(
                        root,
                        f,
                        RoomView {
                            exits: with_exit(room.exits, args[1], args[2], exit),
                            ..room
                        },
                    );
                }
            },
            None => {},
        }
        deleting_keeps_the_root_well_formed(root, caller, args[0]);
        entering_keeps_the_root_well_formed(root, caller, args[0], "{}"@);
    }
}

// ---- who may do what ----

/// The first writer claims the root: the claim can be repeated, and nobody else
/// can claim it any more.
pub proof fn first_writer_claims_the_root(
    root: RootView,
    caller: Seq<char>,
    other: Seq<char>,
)
    requires
        root.claimed_by is None,
        other != caller,
    ensures
        ({
            let (claimed, result) = claim_step(root, caller);
            &&& result is Ok
            &&& claim_step(claimed, caller) == (claimed, result)
            &&& claim_step(claimed, other) == (
                claimed,
                Err::<(), Seq<char>>("#root already claimed by another DID"@),
            )
        }),
{
}

/// Whether a root has the owners and the claim of another.
pub open spec fn same_authority(before: RootView, after: RootView) -> bool {
    after.owners == before.owners && after.claimed_by == before.claimed_by
}

/// What can be done to a root, with the addresses that are drawn for a new room
/// and a new exit.
pub enum Operation {
    Claim { caller: Seq<char> },
    /// Whatever changes a room: it is left as `room`.
    ChangeRoom { fragment: Seq<char>, room: RoomView },
    Enter { did: Seq<char>, name: Seq<char>, ctx: Seq<char> },
    Dig { caller: Seq<char>, spec_: SpecView, fragment: Seq<char>, exit: Seq<char> },
    DigOrEnter { caller: Seq<char>, spec_: SpecView, fragment: Seq<char>, exit: Seq<char> },
    DigFrom {
        caller: Seq<char>,
        source: Seq<char>,
        spec_: SpecView,
        fragment: Seq<char>,
        exit: Seq<char>,
    },
    Delete { caller: Seq<char>, name: Seq<char> },
    RoomCommand { caller: Seq<char>, name: Seq<char>, input: Seq<char> },
    ConcourseCommand {
        caller: Seq<char>,
        input: Seq<char>,
        fragment: Seq<char>,
        exit: Seq<char>,
    },
}

/// The root after an operation.
pub open spec fn operated(root: RootView, operation: Operation) -> RootView {
    match operation {
        Operation::Claim { caller } => claim_step(root, caller).0,
        Operation::ChangeRoom { fragment, room } => with_room(root, fragment, room),
        Operation::Enter { did, name, ctx } => enter_step(root, did, name, ctx).0,
        Operation::Dig { caller, spec_, fragment, exit } => dig_entity_step(
            root,
            caller,
            spec_,
            fragment,
            exit,
        ).0,
        Operation::DigOrEnter { caller, spec_, fragment, exit } => dig_or_enter_step(
            root,
            caller,
            spec_,
            fragment,
            exit,
        ).0,
        Operation::DigFrom { caller, source, spec_, fragment, exit } => dig_from_step(
            root,
            caller,
            source,
            spec_,
            fragment,
            exit,
        ).0,
        Operation::Delete { caller, name } => delete_step(root, caller, name).0,
        Operation::RoomCommand { caller, name, input } => room_command_step(
            root,
            caller,
            name,
            input,
        ).0,
        Operation::ConcourseCommand { caller, input, fragment, exit } => concourse_command_step(
            root,
            caller,
            input,
            fragment,
            exit,
        ).0,
    }
}

/// The root after operations, one after the other.
pub open spec fn operated_all(root: RootView, operations: Seq<Operation>) -> RootView
    decreases operations.len(),
{
    if operations.len() == 0 {
        root
    } else {
        operated(operated_all(root, operations.drop_last()), operations.last())
    }
}

/// Entering, digging and deleting keep the owners and the claim.
pub proof fn rooms_keep_owners_and_claim(
    root: RootView,
    caller: Seq<char>,
    name: Seq<char>,
    ctx: Seq<char>,
    spec_: SpecView,
    fragment: Seq<char>,
    exit: Seq<char>,
)
    ensures
        same_authority(root, enter_step(root, caller, name, ctx).0),
        same_authority(root, dig_entity_step(root, caller, spec_, fragment, exit).0),
        same_authority(root, dig_or_enter_step(root, caller, spec_, fragment, exit).0),
        same_authority(root, dig_from_step(root, caller, name, spec_, fragment, exit).0),
        same_authority(root, delete_step(root, caller, name).0),
{
    let dug = dig_entity_step(root, caller, spec_, fragment, exit).0;
    assert(same_authority(root, dug));
    assert(same_authority(dug, arrive_step(dug, caller, spec_.label).0));
    assert(same_authority(root, arrive_step(root, caller, spec_.label).0));
    match (room_key(root, name), create_step(root, caller, spec_, fragment)) {
        (Some(f), (after, Ok(made))) => {
            let joined = linked(after, f, spec_.label, made, exit);
            assert(same_authority(root, joined));
            assert(same_authority(joined, arrive_step(joined, caller, made).0));
        },
        _ => {},
    }
}

/// Commands inside a room keep the owners and the claim.
pub proof fn room_commands_keep_owners_and_claim(
    root: RootView,
    caller: Seq<char>,
    name: Seq<char>,
    input: Seq<char>,
)
    ensures
        same_authority(root, room_command_step(root, caller, name, input).0),
{
    let command = room_command_of(input);
    match room_key(root, name) {
        Some(f) => {
            let room = room_step(
                root.entities[f],
                caller,
                root.owners.contains(caller),
                command,
                command_args(input),
            ).0;
            assert(same_authority(root, with_room(root, f, room)));
        },
        None => {},
    }
}

/// Commands on the concourse keep the owners and the claim.
pub proof fn concourse_commands_keep_owners_and_claim(
    root: RootView,
    caller: Seq<char>,
    input: Seq<char>,
    fragment: Seq<char>,
    exit: Seq<char>,
)
    ensures
        same_authority(root, concourse_command_step(root, caller, input, fragment, exit).0),
{
    let text = trim(input);
    if text.len() > 0 {
        let args = command_args(text);
        let parts = words(text);
        let command = if parts.len() == 0 {
            command_word(Seq::empty())
        } else {
            command_word(parts[0])
        };
        lemma_dispatch_keeps_authority(root, caller, command, args, fragment, exit);
    }
}

proof fn lemma_dispatch_keeps_authority(
    root: RootView,
    caller: Seq<char>,
    command: Seq<char>,
    args: Seq<Seq<char>>,
    fragment: Seq<char>,
    exit: Seq<char>,
)
    ensures
        same_authority(
            root,
            concourse_dispatch(root, caller, command, args, fragment, exit).0,
        ),
{
    let name = if args.len() > 0 {
        args[0]
    } else {
        Seq::empty()
    };
    match dig_spec(args) {
        Ok(spec_) => {
            rooms_keep_owners_and_claim(root, caller, name, "{}"@, spec_, fragment, exit);
        },
        Err(_) => {},
    }
    assert(same_authority(root, dig_command_step(root, caller, args, fragment, exit).0));
    assert(same_authority(root, describe_step(root, args).0));
    assert(same_authority(root, exit_add_step(root, args, exit).0));
    assert(same_authority(root, exit_del_step(root, args).0));
    assert(same_authority(root, delete_command_step(root, caller, args).0));
    assert(same_authority(root, enter_command_step(root, caller, args).0));
}

/// No operation changes the owners, and none but a first claim changes who
/// claimed the root.
pub proof fn operations_keep_owners_and_claim(root: RootView, operation: Operation)
    ensures
        operated(root, operation).owners == root.owners,
        !(operation is Claim) || root.claimed_by is Some ==> same_authority(
            root,
            operated(root, operation),
        ),
{
    let nothing = SpecView { label: Seq::empty(), description: Seq::empty(), target: None };
    let none = Seq::<char>::empty();
    match operation {
        Operation::Claim { caller } => {},
        Operation::ChangeRoom { fragment, room } => {},
        Operation::Enter { did, name, ctx } => {
            rooms_keep_owners_and_claim(root, did, name, ctx, nothing, none, none);
        },
        Operation::Dig { caller, spec_, fragment, exit } => {
            rooms_keep_owners_and_claim(root, caller, none, none, spec_, fragment, exit);
        },
        Operation::DigOrEnter { caller, spec_, fragment, exit } => {
            rooms_keep_owners_and_claim(root, caller, none, none, spec_, fragment, exit);
        },
        Operation::DigFrom { caller, source, spec_, fragment, exit } => {
            rooms_keep_owners_and_claim(root, caller, source, none, spec_, fragment, exit);
        },
        Operation::Delete { caller, name } => {
            rooms_keep_owners_and_claim(root, caller, name, none, nothing, none, none);
        },
        Operation::RoomCommand { caller, name, input } => {
            room_commands_keep_owners_and_claim(root, caller, name, input);
        },
        Operation::ConcourseCommand { caller, input, fragment, exit } => {
            concourse_commands_keep_owners_and_claim(root, caller, input, fragment, exit);
        },
    }
}

proof fn lemma_claim_outlasts(root: RootView, operations: Seq<Operation>)
    requires
        root.claimed_by is Some,
    ensures
        same_authority(root, operated_all(root, operations)),
    decreases operations.len(),
{
    if operations.len() > 0 {
        lemma_claim_outlasts(root, operations.drop_last());
        operations_keep_owners_and_claim(
            operated_all(root, operations.drop_last()),
            operations.last(),
        );
    }
}

/// Whatever is done after the first claim, the root can be claimed by the first
/// claimant alone; the owners stay who they were, and a claim changes no room.
pub proof fn first_claim_outlasts_every_operation(
    root: RootView,
    caller: Seq<char>,
    operations: Seq<Operation>,
    other: Seq<char>,
)
    requires
        root.claimed_by is None,
    ensures
        ({
            let (claimed, first) = claim_step(root, caller);
            let later = operated_all(claimed, operations);
            let (after, result) = claim_step(later, other);
            &&& first is Ok
            &&& claimed.entities == root.entities && claimed.labels == root.labels
            &&& result is Ok <==> other == caller
            &&& after == later
            &&& later.owners == root.owners
        }),
{
    lemma_claim_outlasts(claim_step(root, caller).0, operations);
}

/// A root that was just made, or restored from a manifest, is claimed by nobody.
pub proof fn fresh_root_is_unclaimed(owners: Set<Seq<char>>, rooms: Seq<ManifestView>)
    ensures
        first_root(owners).claimed_by is None,
        first_root(owners).owners == owners,
        restored_root(rooms, owners).claimed_by is None,
        restored_root(rooms, owners).owners == owners,
{
}

/// Only a runtime owner creates rooms from the concourse, links it to another
/// runtime, or deletes rooms; anyone else is refused, and nothing changes.
pub proof fn only_owners_shape_the_concourse(
    root: RootView,
    caller: Seq<char>,
    spec_: SpecView,
    name: Seq<char>,
    fragment: Seq<char>,
    exit: Seq<char>,
)
    requires
        !root.owners.contains(caller),
    ensures
        dig_entity_step(root, caller, spec_, fragment, exit) == (
            root,
            Err::<(), Seq<char>>("only owners may dig entities"@),
        ),
        spec_.target is Some || resolve(root, spec_.label) is None ==> dig_or_enter_step(
            root,
            caller,
            spec_,
            fragment,
            exit,
        ) == (root, Err::<DigView, Seq<char>>("only owners may dig entities"@)),
        delete_step(root, caller, name) == (
            root,
            Err::<(), Seq<char>>("only owners may delete entities"@),
        ),
{
}

/// Only its owner digs from a room; anyone else is refused, and nothing changes.
pub proof fn only_the_room_owner_digs_from_a_room(
    root: RootView,
    caller: Seq<char>,
    source: Seq<char>,
    spec_: SpecView,
    fragment: Seq<char>,
    exit: Seq<char>,
)
    requires
        room_key(root, source) is Some,
        room_owner(root.entities[room_key(root, source)->0]) != Some(caller),
    ensures
        dig_from_step(root, caller, source, spec_, fragment, exit) == (
            root,
            Err::<DigView, Seq<char>>("only the room owner may dig from this room"@),
        ),
{
}

/// Only a runtime owner connects and disconnects a room's channel and gives a
/// room to someone; anyone else is refused, and nothing changes.
pub proof fn owner_commands_are_refused_to_others(
    root: RootView,
    caller: Seq<char>,
    name: Seq<char>,
    input: Seq<char>,
)
    requires
        !root.owners.contains(caller),
        owners_only(room_command_of(input)),
    ensures
        room_command_step(root, caller, name, input) == (
            root,
            Err::<Seq<char>, Seq<char>>("only owners may do this"@),
        ),
{
}

/// Only its owner or a runtime owner sets the props of a room, and nobody sets
/// the owner as a prop; such commands are refused, and nothing changes.
pub proof fn props_are_set_by_owners_alone(
    room: RoomView,
    caller: Seq<char>,
    runtime_owner: bool,
    args: Seq<Seq<char>>,
)
    requires
        args.len() > 0,
        args[0] == "owner"@ || !(runtime_owner || room_owner(room) == Some(caller)),
    ensures
        prop_step(room, caller, runtime_owner, args).0 == room,
{
}

/// The `prop` command reads what it set.
pub proof fn prop_command_reads_what_it_set(
    room: RoomView,
    caller: Seq<char>,
    reader: Seq<char>,
    args: Seq<Seq<char>>,
)
    requires
        args.len() > 0,
        join(args.skip(1), " "@).len() > 0,
        args[0] != "owner"@,
        room_owner(room) == Some(caller),
    ensures
        ({
            let (after, result) = prop_step(room, caller, false, args);
            &&& result is Ok
            &&& prop_step(after, reader, false, seq![args[0]]) == (
                after,
                Ok::<Seq<char>, Seq<char>>(join(args.skip(1), " "@)),
            )
        }),
{
    assert(seq![args[0]].skip(1) =~= Seq::<Seq<char>>::empty());
}

/// A locked room is unlocked by its secret, and by its owner or a runtime owner
/// without it; any other attempt is refused and leaves it locked.
pub proof fn lock_opens_to_its_secret_and_to_owners(
    room: RoomView,
    caller: Seq<char>,
    runtime_owner: bool,
    args: Seq<Seq<char>>,
)
    requires
        locked(room),
    ensures
        ({
            let (after, result) = unlock_step(room, caller, runtime_owner, args);
            let entitled = runtime_owner || room_owner(room) == Some(caller) || join(args, " "@)
                == lock_secret(room);
            &&& result is Ok <==> entitled
            &&& entitled ==> !locked(after)
            &&& !entitled ==> after == room
        }),
{
}

/// Nobody enters a room while it is locked, and nothing changes.
pub proof fn locked_room_is_not_entered(
    root: RootView,
    did: Seq<char>,
    name: Seq<char>,
    ctx: Seq<char>,
)
    requires
        room_key(root, name) is Some,
        locked(root.entities[room_key(root, name)->0]),
    ensures
        enter_step(root, did, name, ctx) == (
            root,
            Err::<EnterView, Seq<char>>("room is locked"@),
        ),
{
}

// ---- refusals change nothing ----

/// Where entering is refused, nothing changes.
pub proof fn refused_entry_changes_nothing(
    root: RootView,
    did: Seq<char>,
    name: Seq<char>,
    ctx: Seq<char>,
)
    ensures
        enter_step(root, did, name, ctx).1 is Err ==> enter_step(root, did, name, ctx).0 == root,
{
}

/// Where a command inside a room is refused, nothing changes.
pub proof fn refused_room_command_changes_nothing(
    root: RootView,
    caller: Seq<char>,
    name: Seq<char>,
    input: Seq<char>,
)
    ensures
        room_command_step(root, caller, name, input).1 is Err ==> room_command_step(
            root,
            caller,
            name,
            input,
        ).0 == root,
{
    match room_key(root, name) {
        Some(f) => {
            lemma_same_room(root, f);
            lemma_room_step(
                root.entities[f],
                caller,
                root.owners.contains(caller),
                room_command_of(input),
                command_args(input),
            );
        },
        None => {},
    }
}

/// A room that was just dug can be entered by whoever dug it.
pub proof fn lemma_new_room_is_open(
    root: RootView,
    caller: Seq<char>,
    spec_: SpecView,
    source: Seq<char>,
    fragment: Seq<char>,
    exit: Seq<char>,
    name: Seq<char>,
)
    requires
        drawn(root, fragment, exit),
        create_step(root, caller, spec_, fragment).1 is Ok,
        source != fragment,
        name == fragment || (name == spec_.label && resolve(root, spec_.label) is None),
    ensures
        ({
            let after = linked(
                create_step(root, caller, spec_, fragment).0,
                source,
                spec_.label,
                fragment,
                exit,
            );
            &&& room_key(after, name) == Some(fragment)
            &&& entry_refusal(after.entities[fragment], caller) is None
            &&& arrive_step(after, caller, name).1 is Ok
        }),
{
    let created = create_step(root, caller, spec_, fragment).0;
    let after = linked(created, source, spec_.label, fragment, exit);
    let room = dug_room(fragment, spec_, Some(caller), policy_for_all(true));
    assert(after.entities[fragment] == room);
    reveal_strlit("locked");
    reveal_strlit("owner");
    assert("locked"@.len() != "owner"@.len());
    assert(room.props["locked"@] == Seq::<char>::empty());
    assert(!locked(room));
    assert(after.labels[spec_.label] == fragment);
    assert(after.entities.contains_key(name) ==> name == fragment);
    let entered_root = enter_step(after, caller, name, "{}"@).0;
    assert(room_key(entered_root, name) == Some(fragment));
}

pub proof fn lemma_drawn_is_not_concourse(root: RootView, fragment: Seq<char>, exit: Seq<char>)
    requires
        drawn(root, fragment, exit),
    ensures
        fragment != concourse(),
{
    reveal_strlit("#concourse");
    reveal_strlit("#room-");
    let id = choose|id: Seq<char>|
        is_id(id) && id.len() >= ID_LEN && fragment == #[trigger] ("#room-"@ + id);
    assert(fragment[1] == 'r');
    assert("#concourse"@[1] == 'c');
}

/// Where digging is refused, nothing changes.
pub proof fn refused_dig_changes_nothing(
    root: RootView,
    caller: Seq<char>,
    source: Seq<char>,
    spec_: SpecView,
    fragment: Seq<char>,
    exit: Seq<char>,
)
    requires
        drawn(root, fragment, exit),
    ensures
        dig_entity_step(root, caller, spec_, fragment, exit).1 is Err ==> dig_entity_step(
            root,
            caller,
            spec_,
            fragment,
            exit,
        ).0 == root,
        dig_or_enter_step(root, caller, spec_, fragment, exit).1 is Err ==> dig_or_enter_step(
            root,
            caller,
            spec_,
            fragment,
            exit,
        ).0 == root,
        dig_from_step(root, caller, source, spec_, fragment, exit).1 is Err ==> dig_from_step(
            root,
            caller,
            source,
            spec_,
            fragment,
            exit,
        ).0 == root,
{
    lemma_drawn_is_not_concourse(root, fragment, exit);
    if create_step(root, caller, spec_, fragment).1 is Ok {
        if resolve(root, spec_.label) is None {
            lemma_new_room_is_open(
                root,
                caller,
                spec_,
                concourse(),
                fragment,
                exit,
                spec_.label,
            );
        }
        match room_key(root, source) {
            Some(f) => {
                lemma_new_room_is_open(root, caller, spec_, f, fragment, exit, fragment);
            },
            None => {},
        }
    }
    let (entered_root, result) = enter_step(root, caller, spec_.label, "{}"@);
    if result is Ok {
        let f = room_key(root, spec_.label)->0;
        assert(room_key(entered_root, spec_.label) == Some(f));
    }
}

/// Where a command on the concourse is refused, nothing changes.
pub proof fn refused_concourse_command_changes_nothing(
    root: RootView,
    caller: Seq<char>,
    input: Seq<char>,
    fragment: Seq<char>,
    exit: Seq<char>,
)
    requires
        drawn(root, fragment, exit),
    ensures
        concourse_command_step(root, caller, input, fragment, exit).1 is Err
            ==> concourse_command_step(root, caller, input, fragment, exit).0 == root,
{
    let text = trim(input);
    let args = command_args(text);
    match dig_spec(args) {
        Ok(spec_) => {
            refused_dig_changes_nothing(root, caller, concourse(), spec_, fragment, exit);
        },
        Err(_) => {},
    }
    if args.len() > 0 {
        match room_key(root, args[0]) {
            Some(f) => {
                lemma_same_room(root, f);
            },
            None => {},
        }
    }
}

// ---- digging and deleting ----

/// Digging a label that is known enters the room and creates none.
pub proof fn digging_a_known_label_creates_nothing(
    root: RootView,
    caller: Seq<char>,
    spec_: SpecView,
    fragment: Seq<char>,
    exit: Seq<char>,
)
    requires
        spec_.target is None,
        resolve(root, spec_.label) is Some,
    ensures
        ({
            let after = dig_or_enter_step(root, caller, spec_, fragment, exit).0;
            &&& after.entities.dom() == root.entities.dom()
            &&& after.labels == root.labels
        }),
{
    let after = dig_or_enter_step(root, caller, spec_, fragment, exit).0;
    assert(after.entities.dom() =~= root.entities.dom());
}

/// A runtime owner that digs a label that nothing answers to gets a room of
/// that label, which it owns and is in, and to which the concourse leads.
pub proof fn digging_creates_a_room(
    root: RootView,
    caller: Seq<char>,
    spec_: SpecView,
    fragment: Seq<char>,
    exit: Seq<char>,
)
    requires
        well_formed(root),
        drawn(root, fragment, exit),
        root.owners.contains(caller),
        spec_.target is None,
        resolve(root, spec_.label) is None,
        strip_char(spec_.label, '#') != strip_char(concourse(), '#'),
    ensures
        ({
            let (after, result) = dig_or_enter_step(root, caller, spec_, fragment, exit);
            &&& result is Ok
            &&& room_key(after, spec_.label) == Some(fragment)
            &&& after.entities[fragment].label == spec_.label
            &&& room_owner(after.entities[fragment]) == Some(caller)
            &&& after.entities[fragment].presence.contains_key(caller)
            &&& has_exit(after.entities[concourse()].exits, spec_.label)
        }),
{
    lemma_drawn_is_not_concourse(root, fragment, exit);
    let (created, made) = create_step(root, caller, spec_, fragment);
    assert(made is Ok);
    lemma_new_room_is_open(root, caller, spec_, concourse(), fragment, exit, spec_.label);
    let before = root.entities[concourse()].exits;
    if !has_exit(before, spec_.label) {
        added_exit_is_there(before, spec_.label, fragment, exit);
    }
    let after = dig_or_enter_step(root, caller, spec_, fragment, exit).0;
    let linked_root = linked(created, concourse(), spec_.label, fragment, exit);
    assert(room_key(linked_root, spec_.label) == Some(fragment));
    assert(after == with_room(
        linked_root,
        fragment,
        entered(linked_root.entities[fragment], caller, "{}"@),
    ));
    assert(after.entities[fragment].props == dug_room(
        fragment,
        spec_,
        Some(caller),
        policy_for_all(true),
    ).props);
}

/// Linking to another runtime makes an exit to it and no room; doing it again
/// for another target points that exit anew.
pub proof fn linking_makes_an_exit_and_no_room(
    root: RootView,
    caller: Seq<char>,
    spec_: SpecView,
    fragment: Seq<char>,
    exit: Seq<char>,
)
    requires
        well_formed(root),
        root.owners.contains(caller),
        spec_.target is Some,
    ensures
        ({
            let (after, result) = dig_or_enter_step(root, caller, spec_, fragment, exit);
            let exits = after.entities[concourse()].exits;
            let i = exit_named(exits, spec_.label);
            &&& result == Ok::<DigView, Seq<char>>(
                DigView::Foreign { target: spec_.target->0, label: spec_.label },
            )
            &&& after.entities.dom() == root.entities.dom()
            &&& after.labels == root.labels
            &&& i < exits.len()
            &&& exits[i].target == spec_.target->0
        }),
{
    let after = dig_or_enter_step(root, caller, spec_, fragment, exit).0;
    added_exit_is_there(
        root.entities[concourse()].exits,
        spec_.label,
        spec_.target->0,
        exit,
    );
    assert(after.entities.dom() =~= root.entities.dom());
}

proof fn lemma_exits_elsewhere(exits: Seq<ExitView>, fragment: Seq<char>, label: Seq<char>)
    ensures
        forall|i: int|
            0 <= i < exits_elsewhere(exits, fragment, label).len() ==> !leads_to(
                #[trigger] exits_elsewhere(exits, fragment, label)[i],
                fragment,
                label,
            ),
    decreases exits.len(),
{
    if exits.len() > 0 {
        lemma_exits_elsewhere(exits.drop_last(), fragment, label);
        let kept = exits_elsewhere(exits.drop_last(), fragment, label);
        let all = exits_elsewhere(exits, fragment, label);
        assert forall|i: int| 0 <= i < all.len() implies !leads_to(
            #[trigger] all[i],
            fragment,
            label,
        ) by {
            if i < kept.len() {
                assert(all[i] == kept[i]);
            }
        }
    }
}

/// A deleted room is gone: neither its fragment nor its label names a room any
/// more, and no exit leads to it. Every other room is still there.
pub proof fn deleted_room_is_gone(root: RootView, caller: Seq<char>, name: Seq<char>)
    requires
        well_formed(root),
        delete_step(root, caller, name).1 is Ok,
    ensures
        ({
            let after = delete_step(root, caller, name).0;
            let f = resolve(root, name)->0;
            let label = root.entities[f].label;
            &&& !after.entities.contains_key(f)
            &&& !after.labels.contains_key(label)
            &&& forall|g: Seq<char>|
                g != f ==> (#[trigger] after.entities.contains_key(g)
                    <==> root.entities.contains_key(g))
            &&& forall|g: Seq<char>, i: int|
                after.entities.contains_key(g) && 0 <= i < after.entities[g].exits.len()
                    ==> !leads_to(#[trigger] after.entities[g].exits[i], f, label)
        }),
{
    let after = delete_step(root, caller, name).0;
    let f = resolve(root, name)->0;
    let label = root.entities[f].label;
    assert forall|g: Seq<char>, i: int|
        after.entities.contains_key(g) && 0 <= i
            < after.entities[g].exits.len() implies !leads_to(
        #[trigger] after.entities[g].exits[i],
        f,
        label,
    ) by {
        lemma_exits_elsewhere(root.entities[g].exits, f, label);
    }
}

/// Two rooms never share an address: the fragment drawn for a new one is none
/// of those in use.
pub proof fn new_room_keeps_the_others(
    root: RootView,
    owner: Seq<char>,
    spec_: SpecView,
    fragment: Seq<char>,
    exit: Seq<char>,
    other: Seq<char>,
)
    requires
        drawn(root, fragment, exit),
        root.entities.contains_key(other),
    ensures
        ({
            let after = create_step(root, owner, spec_, fragment).0;
            after.entities.contains_key(other) && after.entities[other] == root.entities[other]
        }),
{
}

// ---- addresses on the wire ----

/// Every address in the answer of an exit is a full DID-URL.
pub proof fn traverse_answers_full_addresses(
    root: RootView,
    f: Seq<char>,
    fragment: Seq<char>,
    did: Seq<char>,
    runtime: Seq<char>,
)
    requires
        "did:"@.is_prefix_of(runtime),
    ensures
        "did:"@.is_prefix_of(traversed(root, f, fragment, did, runtime).parent),
        "did:"@.is_prefix_of(traversed(root, f, fragment, did, runtime).exit),
{
    let room = root.entities[f];
    let exit = room.exits[exit_at(room.exits, fragment)];
    lemma_prefix_kept("did:"@, runtime, room.fragment);
    lemma_prefix_kept("did:"@, runtime, exit.fragment);
    every_resolved_address_is_full(root, runtime, exit.target);
}

pub proof fn lemma_prefix_kept(prefix: Seq<char>, s: Seq<char>, rest: Seq<char>)
    requires
        prefix.is_prefix_of(s),
    ensures
        prefix.is_prefix_of(s + rest),
{
    assert((s + rest).subrange(0, prefix.len() as int) =~= s.subrange(0, prefix.len() as int));
}

/// Every destination that resolves does so to a full DID-URL.
pub proof fn every_resolved_address_is_full(
    root: RootView,
    runtime: Seq<char>,
    target: Seq<char>,
)
    requires
        "did:"@.is_prefix_of(runtime),
    ensures
        url_of(root, runtime, target) is Some ==> "did:"@.is_prefix_of(
            url_of(root, runtime, target)->0,
        ),
{
    match resolve(root, target) {
        Some(f) => lemma_prefix_kept("did:"@, runtime, f),
        None => {},
    }
}

/// An exit whose target is empty or unknown keeps the traveller where the exit
/// is.
pub proof fn dead_exit_keeps_the_traveller(
    root: RootView,
    f: Seq<char>,
    fragment: Seq<char>,
    did: Seq<char>,
    runtime: Seq<char>,
)
    requires
        holds_exit(root, f, fragment),
        ({
            let room = root.entities[f];
            let target = room.exits[exit_at(room.exits, fragment)].target;
            target.len() == 0 || url_of(root, runtime, target) is None
        }),
    ensures
        traversed(root, f, fragment, did, runtime).parent == runtime
            + root.entities[f].fragment,
{
}

// ---- manifests ----

proof fn lemma_restored(root: RootView, keys: Seq<Seq<char>>, n: int)
    requires
        well_formed(root),
        lists_keys(keys, root.entities),
        0 <= n <= keys.len(),
    ensures
        ({
            let rooms = looked_up(keys, root.entities).map_values(
                |room: RoomView| durable(room),
            );
            let (entities, labels) = restored(rooms.take(n));
            &&& forall|k: Seq<char>| #[trigger]
                entities.contains_key(k) <==> keys.take(n).contains(k)
            &&& forall|k: Seq<char>| #[trigger]
                entities.contains_key(k) ==> entities[k] == restored_room(
                    durable(root.entities[k]),
                )
            &&& forall|l: Seq<char>| #[trigger]
                labels.contains_key(l) <==> root.labels.contains_key(l) && keys.take(n).contains(
                    root.labels[l],
                )
            &&& forall|l: Seq<char>| #[trigger]
                labels.contains_key(l) ==> labels[l] == root.labels[l]
        }),
    decreases n,
{
    let rooms = looked_up(keys, root.entities).map_values(|room: RoomView| durable(room));
    if n == 0 {
        assert(rooms.take(0) =~= Seq::<ManifestView>::empty());
    } else {
        lemma_restored(root, keys, n - 1);
        let k = keys[n - 1];
        assert(keys.contains(k));
        assert(root.entities.contains_key(k));
        assert(rooms.take(n).drop_last() =~= rooms.take(n - 1));
        assert(rooms.take(n).last() == durable(root.entities[k]));
        let seen = keys.take(n - 1);
        let next = keys.take(n);
        assert forall|x: Seq<char>| #[trigger] next.contains(x) <==> seen.contains(x) || x == k by {
            if seen.contains(x) {
                assert(next[seen.index_of(x)] == x);
            }
            if x == k {
                assert(next[n - 1] == x);
            }
            if next.contains(x) && x != k {
                let i = next.index_of(x);
                assert(seen[i] == x);
            }
        }
        let (entities, labels) = restored(rooms.take(n));
        assert forall|l: Seq<char>| #[trigger] labels.contains_key(l) <==> root.labels.contains_key(
            l,
        ) && next.contains(root.labels[l]) by {
            if root.labels.contains_key(l) && root.labels[l] == k {
                assert(root.entities[k].label == l);
            }
        }
    }
}

/// A root that was kept as a manifest is restored with all its rooms: each under
/// its fragment and its label, with its props, exits and binding, and empty.
/// Ownership comes from the configuration, and nobody has claimed the root.
pub proof fn manifest_restores_the_root(
    root: RootView,
    manifest: Seq<ManifestView>,
    owners: Set<Seq<char>>,
)
    requires
        well_formed(root),
        keeps_rooms(manifest, root.entities),
    ensures
        ({
            let back = restored_root(manifest, owners);
            &&& back.entities.dom() == root.entities.dom()
            &&& back.labels == root.labels
            &&& forall|f: Seq<char>| #[trigger]
                root.entities.contains_key(f) ==> back.entities[f] == restored_room(
                    durable(root.entities[f]),
                )
            &&& back.owners == owners
            &&& back.claimed_by is None
            &&& well_formed(back)
        }),
{
    let keys = choose|keys: Seq<Seq<char>>| #[trigger]
        lists_keys(keys, root.entities) && manifest == looked_up(keys, root.entities).map_values(
            |room: RoomView| durable(room),
        );
    let n = keys.len() as int;
    lemma_restored(root, keys, n);
    assert(keys.take(n) =~= keys);
    assert(manifest.take(n) =~= manifest);
    let (entities, labels) = restored(manifest);
    assert(root.entities.contains_key(concourse()));
    assert(entities.contains_key(concourse()));
    let back = restored_root(manifest, owners);
    assert(back.entities.dom() =~= root.entities.dom());
    assert forall|l: Seq<char>| root.labels.contains_key(l) implies labels.contains_key(l) by {
        assert(root.entities.contains_key(root.labels[l]));
        assert(keys.contains(root.labels[l]));
    }
    assert(back.labels =~= root.labels);
    assert forall|f: Seq<char>| #[trigger] back.entities.contains_key(f) implies {
        let room = back.entities[f];
        &&& room.fragment == f
        &&& back.labels.contains_key(room.label)
        &&& back.labels[room.label] == f
    } by {
        assert(root.entities.contains_key(f));
    }
    assert forall|l: Seq<char>| #[trigger] back.labels.contains_key(l) implies {
        let f = back.labels[l];
        &&& back.entities.contains_key(f)
        &&& back.entities[f].label == l
    } by {
        assert(root.labels.contains_key(l));
        assert(root.entities.contains_key(root.labels[l]));
    }
}

/// Whatever a manifest holds, the root restored from it has the concourse.
pub proof fn restored_root_has_the_concourse(
    manifest: Seq<ManifestView>,
    owners: Set<Seq<char>>,
)
    ensures
        restored_root(manifest, owners).entities.contains_key(concourse()),
{
}

/// An unchanged root is kept as the same manifest, so that its CID is stable.
pub proof fn manifest_is_stable(
    root: RootView,
    first: Seq<ManifestView>,
    second: Seq<ManifestView>,
)
    requires
        well_formed(root),
        keeps_rooms(first, root.entities),
        keeps_rooms(second, root.entities),
    ensures
        first == second,
{
    let a = choose|keys: Seq<Seq<char>>| #[trigger]
        lists_keys(keys, root.entities) && first == looked_up(keys, root.entities).map_values(
            |room: RoomView| durable(room),
        );
    let b = choose|keys: Seq<Seq<char>>| #[trigger]
        lists_keys(keys, root.entities) && second == looked_up(keys, root.entities).map_values(
            |room: RoomView| durable(room),
        );
    let fa = first.map_values(|room: ManifestView| room.fragment);
    let fb = second.map_values(|room: ManifestView| room.fragment);
    assert forall|i: int| 0 <= i < a.len() implies fa[i] == a[i] by {
        assert(a.contains(a[i]));
        assert(root.entities.contains_key(a[i]));
    }
    assert forall|i: int| 0 <= i < b.len() implies fb[i] == b[i] by {
        assert(b.contains(b[i]));
        assert(root.entities.contains_key(b[i]));
    }
    assert(fa =~= a);
    assert(fb =~= b);
    assert(a.to_multiset() =~= b.to_multiset()) by {
        broadcast use vstd::seq_lib::group_to_multiset_ensures;

        a.lemma_multiset_has_no_duplicates();
        b.lemma_multiset_has_no_duplicates();
        assert forall|k: Seq<char>| a.to_multiset().count(k) == b.to_multiset().count(k) by {
            if a.contains(k) {
                assert(root.entities.contains_key(k));
                assert(b.contains(k));
                assert(a.to_multiset().contains(k));
                assert(b.to_multiset().contains(k));
            } else {
                assert(!root.entities.contains_key(k));
                assert(!b.contains(k));
            }
        }
    }
    lemma_sorted_unique_order(a, b);
}

} // verus!
