//! The root as a mathematical value, and what each operation makes of it.

use vstd::prelude::*;

use crate::channel::dig::{dig_spec, SpecView};
use crate::channel::endpoint::{
    join_refusal, server_refusal, unbound, valid_channel, BindingView,
};
use crate::channel::room::{
    bare_room, deactivated, dug_room, entered, entry_refusal, first_props, has_exit, left,
    lock_secret, locked, policy_for_all, prop, prop_or, restored_room, room_description, room_name,
    room_owner, with_exit, with_prop, without_exit, ExitView, ManifestView, RoomView,
};
use crate::order::sorted_values;
use crate::text::{ascii_lower, begins_with, join, strip_char, trim, unescape, words};
use crate::yaml::ctx_text;

verus! {

/// What the root actor holds.
#[verifier::ext_equal]
pub struct RootView {
    pub owners: Set<Seq<char>>,
    pub claimed_by: Option<Seq<char>>,
    /// The rooms, by their fragments.
    pub entities: Map<Seq<char>, RoomView>,
    /// The fragments of the rooms, by their labels.
    pub labels: Map<Seq<char>, Seq<char>>,
}

pub open spec fn concourse() -> Seq<char> {
    "#concourse"@
}

/// The room that every root has.
pub open spec fn concourse_room() -> RoomView {
    bare_room(
        concourse(),
        concourse(),
        first_props(concourse(), Seq::empty()),
        policy_for_all(true),
    )
}

/// A root with nothing but the concourse.
pub open spec fn first_root(owners: Set<Seq<char>>) -> RootView {
    RootView {
        owners,
        claimed_by: None,
        entities: Map::empty().insert(concourse(), concourse_room()),
        labels: Map::empty().insert(concourse(), concourse()),
    }
}

/// What holds of every root that was built by its own operations: the concourse
/// is there, every room stands under its own fragment, and the labels name the
/// rooms, each once.
pub open spec fn well_formed(root: RootView) -> bool {
    &&& root.entities.contains_key(concourse())
    &&& forall|f: Seq<char>| #[trigger]
        root.entities.contains_key(f) ==> {
            let room = root.entities[f];
            &&& room.fragment == f
            &&& root.labels.contains_key(room.label)
            &&& root.labels[room.label] == f
        }
    &&& forall|l: Seq<char>| #[trigger]
        root.labels.contains_key(l) ==> {
            let f = root.labels[l];
            &&& root.entities.contains_key(f)
            &&& root.entities[f].label == l
        }
}

// ---- finding rooms ----

/// The fragment that a name stands for: a fragment itself, a label, or a label
/// behind a `#`.
pub open spec fn resolve(root: RootView, name: Seq<char>) -> Option<Seq<char>> {
    if root.entities.contains_key(name) {
        Some(name)
    } else if root.labels.contains_key(name) {
        Some(root.labels[name])
    } else if begins_with(name, '#') && root.labels.contains_key(name.skip(1)) {
        Some(root.labels[name.skip(1)])
    } else {
        None
    }
}

/// The fragment that a name stands for, if there is a room under it.
pub open spec fn room_key(root: RootView, name: Seq<char>) -> Option<Seq<char>> {
    match resolve(root, name) {
        Some(f) => if root.entities.contains_key(f) {
            Some(f)
        } else {
            None
        },
        None => None,
    }
}

/// The root with another room under a fragment.
pub open spec fn with_room(root: RootView, f: Seq<char>, room: RoomView) -> RootView {
    RootView { entities: root.entities.insert(f, room), ..root }
}

/// A destination as a full DID-URL.
pub open spec fn url_of(root: RootView, runtime: Seq<char>, target: Seq<char>) -> Option<
    Seq<char>,
> {
    if "did:"@.is_prefix_of(target) {
        Some(target)
    } else {
        match resolve(root, target) {
            Some(f) => Some(runtime + f),
            None => None,
        }
    }
}

// ---- what a root answers ----

/// The labels of the rooms other than the concourse, by their fragments.
pub open spec fn label_map(entities: Map<Seq<char>, RoomView>) -> Map<Seq<char>, Seq<char>> {
    Map::new(
        |f: Seq<char>| entities.contains_key(f) && entities[f].fragment != concourse(),
        |f: Seq<char>| entities[f].label,
    )
}

/// The labels of the rooms other than the concourse, in order.
pub open spec fn room_labels(root: RootView) -> Seq<Seq<char>> {
    sorted_values(label_map(root.entities))
}

/// The labels with `sep` between them, or a word for there being none.
pub open spec fn labels_text(labels: Seq<Seq<char>>, sep: Seq<char>) -> Seq<char> {
    if labels.len() == 0 {
        "(no rooms yet)"@
    } else {
        join(labels, sep)
    }
}

pub open spec fn guide() -> Seq<char> {
    "Welcome to #concourse\nUse dig <name> to enter an existing room or create and enter a new one.\nLink an existing room in another runtime: dig <name> to <did:ma:...#fragment>\nSet room description: describe <room> <text_with_underscores>\nAdd exit: exit-add <room> <name> <did:ma:...#fragment>\nRemove exit: exit-del <room> <name>\nDelete room: delete <name>\nShow room ctx: ctx <room>\nList rooms with: exits\nInside a room: :prop <key> [value], :owner <did>, :unlock [secret], dig <name>, and IRC config with :irc-server, :irc-nick, :irc-channel, then :irc-connect (owners only).\nKnown rooms: "@
}

/// What the concourse tells of itself.
pub open spec fn instructions(root: RootView) -> Seq<char> {
    guide() + labels_text(room_labels(root), ", "@)
}

pub enum EnterView {
    Joined,
    ConcourseGuide(Seq<char>),
}

/// What a `DigOutcome` holds.
#[verifier::ext_equal]
pub enum DigView {
    Local { fragment: Seq<char>, name: Seq<char>, description: Seq<char> },
    Foreign { target: Seq<char>, label: Seq<char> },
}

/// What a `TraverseReply` holds.
#[verifier::ext_equal]
pub struct TraverseView {
    pub did: Seq<char>,
    pub parent: Seq<char>,
    pub text: Seq<char>,
    pub exit: Seq<char>,
    pub direction: Seq<char>,
}

// ---- entering and digging ----

/// `did` enters the room named `name`.
pub open spec fn enter_step(
    root: RootView,
    did: Seq<char>,
    name: Seq<char>,
    ctx: Seq<char>,
) -> (RootView, Result<EnterView, Seq<char>>) {
    match room_key(root, name) {
        None => (root, Err("entity not found"@)),
        Some(f) => match entry_refusal(root.entities[f], did) {
            Some(error) => (root, Err(error)),
            None => {
                let after = with_room(root, f, entered(root.entities[f], did, ctx));
                if f == concourse() {
                    (after, Ok(EnterView::ConcourseGuide(instructions(after))))
                } else {
                    (after, Ok(EnterView::Joined))
                }
            },
        },
    }
}

/// A room is created under `fragment`, owned by `owner`.
pub open spec fn create_step(
    root: RootView,
    owner: Seq<char>,
    spec_: SpecView,
    fragment: Seq<char>,
) -> (RootView, Result<Seq<char>, Seq<char>>) {
    if strip_char(spec_.label, '#') == strip_char(concourse(), '#') {
        (root, Err("#concourse is a reserved room"@))
    } else if root.labels.contains_key(spec_.label) {
        (root, Err("entity label already exists"@))
    } else {
        (
            RootView {
                entities: root.entities.insert(
                    fragment,
                    dug_room(fragment, spec_, Some(owner), policy_for_all(true)),
                ),
                labels: root.labels.insert(spec_.label, fragment),
                ..root
            },
            Ok(fragment),
        )
    }
}

/// An exit named `label` leads out of the room `source`; one that there is
/// already stays as it is.
pub open spec fn linked(
    root: RootView,
    source: Seq<char>,
    label: Seq<char>,
    target: Seq<char>,
    exit: Seq<char>,
) -> RootView {
    if root.entities.contains_key(source) && !has_exit(root.entities[source].exits, label) {
        let room = root.entities[source];
        with_room(
            root,
            source,
            RoomView { exits: with_exit(room.exits, label, target, exit), ..room },
        )
    } else {
        root
    }
}

/// A runtime owner creates a room, which the concourse is linked to.
pub open spec fn dig_entity_step(
    root: RootView,
    caller: Seq<char>,
    spec_: SpecView,
    fragment: Seq<char>,
    exit: Seq<char>,
) -> (RootView, Result<(), Seq<char>>) {
    if !root.owners.contains(caller) {
        (root, Err("only owners may dig entities"@))
    } else {
        match create_step(root, caller, spec_, fragment) {
            (after, Ok(f)) => (linked(after, concourse(), spec_.label, f, exit), Ok(())),
            (after, Err(error)) => (after, Err(error)),
        }
    }
}

/// A room is linked to one of another runtime.
pub open spec fn link_step(
    root: RootView,
    source: Seq<char>,
    label: Seq<char>,
    target: Seq<char>,
    exit: Seq<char>,
) -> (RootView, Result<(), Seq<char>>) {
    if root.entities.contains_key(source) {
        let room = root.entities[source];
        (
            with_room(
                root,
                source,
                RoomView { exits: with_exit(room.exits, label, target, exit), ..room },
            ),
            Ok(()),
        )
    } else {
        (root, Err("entity not found"@))
    }
}

/// `caller` enters the room named `name`, and is told which one it is.
pub open spec fn arrive_step(root: RootView, caller: Seq<char>, name: Seq<char>) -> (
    RootView,
    Result<DigView, Seq<char>>,
) {
    match enter_step(root, caller, name, "{}"@) {
        (after, Err(error)) => (after, Err(error)),
        (after, Ok(_)) => match room_key(after, name) {
            None => (after, Err("room missing after dig"@)),
            Some(f) => {
                let room = after.entities[f];
                (
                    after,
                    Ok(
                        DigView::Local {
                            fragment: room.fragment,
                            name: room_name(room),
                            description: room_description(room),
                        },
                    ),
                )
            },
        },
    }
}

/// `dig` from the concourse: a link to another runtime, or a room of this one
/// that is entered, and created before if need be.
pub open spec fn dig_or_enter_step(
    root: RootView,
    caller: Seq<char>,
    spec_: SpecView,
    fragment: Seq<char>,
    exit: Seq<char>,
) -> (RootView, Result<DigView, Seq<char>>) {
    match spec_.target {
        Some(target) => if !root.owners.contains(caller) {
            (root, Err("only owners may dig entities"@))
        } else {
            match link_step(root, concourse(), spec_.label, target, exit) {
                (after, Ok(_)) => (after, Ok(DigView::Foreign { target, label: spec_.label })),
                (after, Err(error)) => (after, Err(error)),
            }
        },
        None => if resolve(root, spec_.label) is Some {
            arrive_step(root, caller, spec_.label)
        } else {
            match dig_entity_step(root, caller, spec_, fragment, exit) {
                (after, Ok(_)) => arrive_step(after, caller, spec_.label),
                (after, Err(error)) => (after, Err(error)),
            }
        },
    }
}

/// `dig` from inside the room `source`, which its owner alone may do.
pub open spec fn dig_from_step(
    root: RootView,
    caller: Seq<char>,
    source: Seq<char>,
    spec_: SpecView,
    fragment: Seq<char>,
    exit: Seq<char>,
) -> (RootView, Result<DigView, Seq<char>>) {
    match room_key(root, source) {
        None => (root, Err("entity not found"@)),
        Some(f) => if room_owner(root.entities[f]) != Some(caller) {
            (root, Err("only the room owner may dig from this room"@))
        } else {
            match spec_.target {
                Some(target) => match link_step(root, f, spec_.label, target, exit) {
                    (after, Ok(_)) => (
                        after,
                        Ok(DigView::Foreign { target, label: spec_.label }),
                    ),
                    (after, Err(error)) => (after, Err(error)),
                },
                None => match create_step(root, caller, spec_, fragment) {
                    (after, Ok(made)) => arrive_step(
                        linked(after, f, spec_.label, made, exit),
                        caller,
                        made,
                    ),
                    (after, Err(error)) => (after, Err(error)),
                },
            }
        },
    }
}

/// Whether an exit leads to the room `fragment` with the label `label`.
pub open spec fn leads_to(exit: ExitView, fragment: Seq<char>, label: Seq<char>) -> bool {
    exit.target == fragment || exit.target == label || fragment.is_suffix_of(exit.target)
}

/// The exits that do not lead to the room `fragment` with the label `label`.
pub open spec fn exits_elsewhere(
    exits: Seq<ExitView>,
    fragment: Seq<char>,
    label: Seq<char>,
) -> Seq<ExitView>
    decreases exits.len(),
{
    if exits.len() == 0 {
        Seq::empty()
    } else if leads_to(exits.last(), fragment, label) {
        exits_elsewhere(exits.drop_last(), fragment, label)
    } else {
        exits_elsewhere(exits.drop_last(), fragment, label).push(exits.last())
    }
}

/// The rooms without `fragment` and without exits to it.
pub open spec fn rooms_without(
    entities: Map<Seq<char>, RoomView>,
    fragment: Seq<char>,
) -> Map<Seq<char>, RoomView> {
    let label = entities[fragment].label;
    Map::new(
        |f: Seq<char>| entities.contains_key(f) && f != fragment,
        |f: Seq<char>|
            RoomView {
                exits: exits_elsewhere(entities[f].exits, fragment, label),
                ..entities[f]
            },
    )
}

/// A runtime owner deletes a room other than the concourse.
pub open spec fn delete_step(root: RootView, caller: Seq<char>, name: Seq<char>) -> (
    RootView,
    Result<(), Seq<char>>,
) {
    if !root.owners.contains(caller) {
        (root, Err("only owners may delete entities"@))
    } else {
        match resolve(root, name) {
            None => (root, Err("entity not found"@)),
            Some(f) => if f == concourse() {
                (root, Err("#concourse cannot be deleted"@))
            } else if !root.entities.contains_key(f) {
                (root, Err("entity not found"@))
            } else {
                (
                    RootView {
                        entities: rooms_without(root.entities, f),
                        labels: root.labels.remove(root.entities[f].label),
                        ..root
                    },
                    Ok(()),
                )
            },
        }
    }
}

/// The first writer claims the root; nobody else does afterwards.
pub open spec fn claim_step(root: RootView, caller: Seq<char>) -> (
    RootView,
    Result<(), Seq<char>>,
) {
    match root.claimed_by {
        None => (RootView { claimed_by: Some(caller), ..root }, Ok(())),
        Some(current) => if current == caller {
            (root, Ok(()))
        } else {
            (root, Err("#root already claimed by another DID"@))
        },
    }
}

// ---- commands inside a room ----

/// One line for every exit.
pub open spec fn exit_lines(exits: Seq<ExitView>) -> Seq<Seq<char>> {
    exits.map_values(|exit: ExitView| exit.name + " -> "@ + exit.target)
}

pub open spec fn exits_text(exits: Seq<ExitView>) -> Seq<char> {
    if exits.len() == 0 {
        "(no exits)"@
    } else {
        join(exit_lines(exits), "\n"@)
    }
}

pub open spec fn look_text(room: RoomView) -> Seq<char> {
    room_name(room) + "\n"@ + room_description(room) + "\nExits:\n"@ + exits_text(room.exits)
}

pub open spec fn configured(room: RoomView) -> BindingView {
    match room.irc {
        Some(binding) => binding,
        None => unbound(),
    }
}

/// A setting, or a word for its not being set.
pub open spec fn shown_setting(value: Seq<char>, unset: Seq<char>) -> Seq<char> {
    if value.len() == 0 {
        unset
    } else {
        value
    }
}

pub open spec fn with_binding(room: RoomView, binding: BindingView) -> RoomView {
    RoomView { irc: Some(binding), ..room }
}

/// The `prop` command.
pub open spec fn prop_step(
    room: RoomView,
    caller: Seq<char>,
    runtime_owner: bool,
    args: Seq<Seq<char>>,
) -> (RoomView, Result<Seq<char>, Seq<char>>) {
    if args.len() == 0 {
        (room, Err("usage: :prop <key> [value]"@))
    } else {
        let value = join(args.skip(1), " "@);
        if value.len() == 0 {
            (room, Ok(prop_or(room, args[0], "(unset)"@)))
        } else if args[0] == "owner"@ {
            (room, Err("owner is a protected prop; use :owner <did>"@))
        } else if !(runtime_owner || room_owner(room) == Some(caller)) {
            (room, Err("only the room owner may set props"@))
        } else {
            (with_prop(room, args[0], value), Ok(args[0] + " set"@))
        }
    }
}

/// The `unlock` command.
pub open spec fn unlock_step(
    room: RoomView,
    caller: Seq<char>,
    runtime_owner: bool,
    args: Seq<Seq<char>>,
) -> (RoomView, Result<Seq<char>, Seq<char>>) {
    let secret = join(args, " "@);
    if !locked(room) {
        (room, Ok("room is not locked"@))
    } else if runtime_owner || room_owner(room) == Some(caller) {
        (with_prop(room, "locked"@, Seq::empty()), Ok("unlocked"@))
    } else if secret.len() == 0 {
        (room, Err("usage: :unlock <secret>"@))
    } else if secret == lock_secret(room) {
        (with_prop(room, "locked"@, Seq::empty()), Ok("unlocked"@))
    } else {
        (room, Err("wrong unlock secret"@))
    }
}

/// The commands that set up and switch the room's channel, but for the right to
/// switch it.
pub open spec fn irc_step(room: RoomView, command: Seq<char>, args: Seq<Seq<char>>) -> (
    RoomView,
    Result<Seq<char>, Seq<char>>,
) {
    let value = join(args, " "@);
    let binding = configured(room);
    if command == "irc-server"@ {
        if value.len() == 0 {
            (room, Ok(shown_setting(binding.server, "(IRC server not set)"@)))
        } else {
            match server_refusal(value) {
                Some(error) => (room, Err(error)),
                None => (
                    with_binding(room, BindingView { server: value, ..binding }),
                    Ok("IRC server set to "@ + value),
                ),
            }
        }
    } else if command == "irc-nick"@ {
        if value.len() == 0 {
            (room, Ok(shown_setting(binding.nick, "(IRC nick not set)"@)))
        } else {
            (
                with_binding(room, BindingView { nick: value, ..binding }),
                Ok("IRC nick set to "@ + value),
            )
        }
    } else if command == "irc-channel"@ {
        if value.len() == 0 {
            (room, Ok(shown_setting(binding.channel, "(IRC channel not set)"@)))
        } else if !valid_channel(value) {
            (room, Err("usage: :irc-channel #<name>"@))
        } else {
            (
                with_binding(room, BindingView { channel: value, ..binding }),
                Ok("IRC channel set to "@ + value),
            )
        }
    } else if command == "irc-connect"@ {
        match room.irc {
            None => (room, Err("set the IRC server and channel before :irc-connect"@)),
            Some(binding) => match join_refusal(binding) {
                Some(error) => (room, Err(error)),
                None => (
                    RoomView { irc_active: true, ..room },
                    Ok("connected "@ + binding.channel + " on "@ + binding.server),
                ),
            },
        }
    } else {
        (deactivated(room), Ok("disconnected "@ + room_name(room)))
    }
}

/// Whether a command concerns the room's channel.
pub open spec fn is_irc_command(command: Seq<char>) -> bool {
    ||| command == "irc-server"@
    ||| command == "irc-nick"@
    ||| command == "irc-channel"@
    ||| command == "irc-connect"@
    ||| command == "irc-disconnect"@
}

/// What a command does inside a room.
pub open spec fn room_step(
    room: RoomView,
    caller: Seq<char>,
    runtime_owner: bool,
    command: Seq<char>,
    args: Seq<Seq<char>>,
) -> (RoomView, Result<Seq<char>, Seq<char>>) {
    if command == "help"@ || command == "look"@ {
        (room, Ok(look_text(room)))
    } else if command == "exits"@ {
        (room, Ok(exits_text(room.exits)))
    } else if command == "say"@ || command == "emote"@ {
        if room.presence.contains_key(caller) {
            (room, Ok(Seq::empty()))
        } else {
            (room, Err("sender is not in the room"@))
        }
    } else if command == "prop"@ {
        prop_step(room, caller, runtime_owner, args)
    } else if command == "owner"@ {
        if args.len() == 1 {
            (with_prop(room, "owner"@, args[0]), Ok("owner set to "@ + args[0]))
        } else {
            (room, Err("usage: :owner <did>"@))
        }
    } else if command == "unlock"@ {
        unlock_step(room, caller, runtime_owner, args)
    } else if is_irc_command(command) {
        irc_step(room, command, args)
    } else if command == "leave"@ {
        (left(room, caller), Ok("left "@ + room_name(room)))
    } else {
        (
            room,
            Err(
                "unknown room command '"@ + command
                    + "' (try: look, exits, say, emote, prop, owner, unlock, irc-server, irc-nick, irc-channel, irc-connect, irc-disconnect, leave)"@,
            ),
        )
    }
}

/// The word of a command without the colons before it, in small letters.
pub open spec fn command_word(word: Seq<char>) -> Seq<char> {
    ascii_lower(strip_char(word, ':'))
}

/// The commands that only a runtime owner may give.
pub open spec fn owners_only(command: Seq<char>) -> bool {
    command == "irc-connect"@ || command == "irc-disconnect"@ || command == "owner"@
}

/// The command that `input` gives, which is `look` where it gives none.
pub open spec fn room_command_of(input: Seq<char>) -> Seq<char> {
    let parts = words(input);
    if parts.len() == 0 {
        command_word("look"@)
    } else {
        command_word(parts[0])
    }
}

/// What follows the command in `input`.
pub open spec fn command_args(input: Seq<char>) -> Seq<Seq<char>> {
    let parts = words(input);
    if parts.len() == 0 {
        Seq::empty()
    } else {
        parts.skip(1)
    }
}

/// A command given inside the room named `name`.
pub open spec fn room_command_step(
    root: RootView,
    caller: Seq<char>,
    name: Seq<char>,
    input: Seq<char>,
) -> (RootView, Result<Seq<char>, Seq<char>>) {
    let command = room_command_of(input);
    let runtime_owner = root.owners.contains(caller);
    if owners_only(command) && !runtime_owner {
        (root, Err("only owners may do this"@))
    } else {
        match room_key(root, name) {
            None => (root, Err("entity not found"@)),
            Some(f) => {
                let (room, result) = room_step(
                    root.entities[f],
                    caller,
                    runtime_owner,
                    command,
                    command_args(input),
                );
                (with_room(root, f, room), result)
            },
        }
    }
}

// ---- commands on the concourse ----

/// The root with one of its rooms changed, and an answer; or the refusal of a
/// name that no room has.
pub open spec fn change_room(
    root: RootView,
    name: Seq<char>,
    change: spec_fn(RoomView) -> (RoomView, Result<Seq<char>, Seq<char>>),
) -> (RootView, Result<Seq<char>, Seq<char>>) {
    match room_key(root, name) {
        None => (root, Err("entity not found"@)),
        Some(f) => {
            let (room, result) = change(root.entities[f]);
            (with_room(root, f, room), result)
        },
    }
}

/// The `dig` command.
pub open spec fn dig_command_step(
    root: RootView,
    caller: Seq<char>,
    args: Seq<Seq<char>>,
    fragment: Seq<char>,
    exit: Seq<char>,
) -> (RootView, Result<Seq<char>, Seq<char>>) {
    match dig_spec(args) {
        Err(error) => (root, Err(error)),
        Ok(spec_) => match dig_or_enter_step(root, caller, spec_, fragment, exit) {
            (after, Err(error)) => (after, Err(error)),
            (after, Ok(DigView::Local { fragment, name, description })) => (
                after,
                Ok("entered "@ + name),
            ),
            (after, Ok(DigView::Foreign { target, label })) => (
                after,
                Ok("linked "@ + label + " -> "@ + target),
            ),
        },
    }
}

/// The `describe` command.
pub open spec fn describe_step(root: RootView, args: Seq<Seq<char>>) -> (
    RootView,
    Result<Seq<char>, Seq<char>>,
) {
    let description = join(args.skip(1), " "@);
    if args.len() == 0 || description.len() == 0 {
        (root, Err("usage: describe <room> <text_with_underscores>"@))
    } else {
        change_room(
            root,
            args[0],
            |room: RoomView|
                (
                    with_prop(room, "description"@, unescape(description)),
                    Ok("updated description for "@ + args[0]),
                ),
        )
    }
}

/// The `exit-add` command.
pub open spec fn exit_add_step(root: RootView, args: Seq<Seq<char>>, exit: Seq<char>) -> (
    RootView,
    Result<Seq<char>, Seq<char>>,
) {
    if args.len() < 3 {
        (root, Err("usage: exit-add <room> <name> <target>"@))
    } else {
        change_room(
            root,
            args[0],
            |room: RoomView|
                (
                    RoomView { exits: with_exit(room.exits, args[1], args[2], exit), ..room },
                    Ok("added exit "@ + args[1] + " -> "@ + args[2]),
                ),
        )
    }
}

/// The `exit-del` command.
pub open spec fn exit_del_step(root: RootView, args: Seq<Seq<char>>) -> (
    RootView,
    Result<Seq<char>, Seq<char>>,
) {
    if args.len() < 2 {
        (root, Err("usage: exit-del <room> <name>"@))
    } else {
        change_room(
            root,
            args[0],
            |room: RoomView|
                if has_exit(room.exits, args[1]) {
                    (
                        RoomView { exits: without_exit(room.exits, args[1]), ..room },
                        Ok("removed exit "@ + args[1]),
                    )
                } else {
                    (room, Err("exit not found"@))
                },
        )
    }
}

/// The `delete` command.
pub open spec fn delete_command_step(
    root: RootView,
    caller: Seq<char>,
    args: Seq<Seq<char>>,
) -> (RootView, Result<Seq<char>, Seq<char>>) {
    if args.len() == 0 {
        (root, Err("usage: delete <entity>"@))
    } else {
        match delete_step(root, caller, args[0]) {
            (after, Ok(_)) => (after, Ok("deleted "@ + args[0])),
            (after, Err(error)) => (after, Err(error)),
        }
    }
}

/// The `ctx` command.
pub open spec fn ctx_step(root: RootView, args: Seq<Seq<char>>) -> (
    RootView,
    Result<Seq<char>, Seq<char>>,
) {
    if args.len() == 0 {
        (root, Err("usage: ctx <room>"@))
    } else {
        match room_key(root, args[0]) {
            None => (root, Err("entity not found"@)),
            Some(f) => (root, ctx_text(root.entities[f])),
        }
    }
}

/// The `enter` command.
pub open spec fn enter_command_step(
    root: RootView,
    caller: Seq<char>,
    args: Seq<Seq<char>>,
) -> (RootView, Result<Seq<char>, Seq<char>>) {
    if args.len() == 0 {
        (root, Err("usage: enter <entity>"@))
    } else {
        match enter_step(root, caller, args[0], "{}"@) {
            (after, Err(error)) => (after, Err(error)),
            (after, Ok(EnterView::Joined)) => (after, Ok("entered "@ + args[0])),
            (after, Ok(EnterView::ConcourseGuide(text))) => (after, Ok(text)),
        }
    }
}

/// What a command does on the concourse.
pub open spec fn concourse_dispatch(
    root: RootView,
    caller: Seq<char>,
    command: Seq<char>,
    args: Seq<Seq<char>>,
    fragment: Seq<char>,
    exit: Seq<char>,
) -> (RootView, Result<Seq<char>, Seq<char>>) {
    if command == "help"@ || command == "look"@ {
        (root, Ok(instructions(root)))
    } else if command == "exits"@ || command == "list"@ {
        (root, Ok(labels_text(room_labels(root), "\n"@)))
    } else if command == "dig"@ {
        dig_command_step(root, caller, args, fragment, exit)
    } else if command == "describe"@ {
        describe_step(root, args)
    } else if command == "exit-add"@ {
        exit_add_step(root, args, exit)
    } else if command == "exit-del"@ {
        exit_del_step(root, args)
    } else if command == "delete"@ || command == "del"@ {
        delete_command_step(root, caller, args)
    } else if command == "ctx"@ {
        ctx_step(root, args)
    } else if command == "enter"@ {
        enter_command_step(root, caller, args)
    } else {
        (
            root,
            Err(
                "unknown #concourse command '"@ + command
                    + "' (try: help, exits, dig, describe, exit-add, exit-del, delete, ctx, enter)"@,
            ),
        )
    }
}

/// A command given on the concourse. `fragment` and `exit` are the addresses of
/// a room and an exit that it may create.
pub open spec fn concourse_command_step(
    root: RootView,
    caller: Seq<char>,
    input: Seq<char>,
    fragment: Seq<char>,
    exit: Seq<char>,
) -> (RootView, Result<Seq<char>, Seq<char>>) {
    let text = trim(input);
    let parts = words(text);
    if text.len() == 0 {
        (root, Ok(instructions(root)))
    } else {
        let command = if parts.len() == 0 {
            command_word(Seq::empty())
        } else {
            command_word(parts[0])
        };
        concourse_dispatch(root, caller, command, command_args(text), fragment, exit)
    }
}

// ---- walking through exits ----

/// The index of the first exit with the address `fragment`, or the number of
/// exits if there is none.
pub open spec fn exit_at(exits: Seq<ExitView>, fragment: Seq<char>) -> int
    decreases exits.len(),
{
    if exits.len() == 0 || exits[0].fragment == fragment {
        0
    } else {
        1 + exit_at(exits.drop_first(), fragment)
    }
}

/// Whether the room under `f` has an exit with the address `fragment`.
pub open spec fn holds_exit(root: RootView, f: Seq<char>, fragment: Seq<char>) -> bool {
    root.entities.contains_key(f) && exit_at(root.entities[f].exits, fragment)
        < root.entities[f].exits.len()
}

/// Whether some room has an exit with the address `fragment`.
pub open spec fn exit_known(root: RootView, fragment: Seq<char>) -> bool {
    exists|f: Seq<char>| #[trigger] holds_exit(root, f, fragment)
}

/// Where an exit of the room under `f` leads a traveller: to its target, or back
/// into the room if the target is empty or unknown.
pub open spec fn traversed(
    root: RootView,
    f: Seq<char>,
    fragment: Seq<char>,
    did: Seq<char>,
    runtime: Seq<char>,
) -> TraverseView {
    let room = root.entities[f];
    let exit = room.exits[exit_at(room.exits, fragment)];
    let url = if exit.target.len() == 0 {
        None
    } else {
        url_of(root, runtime, exit.target)
    };
    TraverseView {
        did,
        parent: match url {
            Some(url) => url,
            None => runtime + room.fragment,
        },
        text: match url {
            Some(_) => "You go "@ + exit.name + "."@,
            None => "This exit leads nowhere."@,
        },
        exit: runtime + exit.fragment,
        direction: exit.name,
    }
}

// ---- manifests ----

/// The entities and labels after the rooms of a manifest, read in order.
pub open spec fn restored(rooms: Seq<ManifestView>) -> (
    Map<Seq<char>, RoomView>,
    Map<Seq<char>, Seq<char>>,
)
    decreases rooms.len(),
{
    if rooms.len() == 0 {
        (Map::empty(), Map::empty())
    } else {
        let (entities, labels) = restored(rooms.drop_last());
        let room = rooms.last();
        (
            entities.insert(room.fragment, restored_room(room)),
            labels.insert(room.label, room.fragment),
        )
    }
}

/// The root that a manifest restores; the concourse is there in any case.
pub open spec fn restored_root(rooms: Seq<ManifestView>, owners: Set<Seq<char>>) -> RootView {
    let (entities, labels) = restored(rooms);
    if entities.contains_key(concourse()) {
        RootView { owners, claimed_by: None, entities, labels }
    } else {
        RootView {
            owners,
            claimed_by: None,
            entities: entities.insert(concourse(), concourse_room()),
            labels: labels.insert(concourse(), concourse()),
        }
    }
}

} // verus!
