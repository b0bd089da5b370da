//! What the commands do that are given inside a room and on the concourse.

use vstd::prelude::*;

use crate::channel::dig::dig_spec;
use crate::channel::endpoint::{endpoint_at, BindingView};
use crate::channel::laws::{adding_an_exit_points_it, removing_an_exit_keeps_the_others};
use crate::channel::room::{ExitView, RoomView};
use crate::root::effects::{differs_in_room, pointed};
use crate::root::laws::lemma_same_room;
use crate::root::model::{
    command_args, command_word, concourse_command_step, delete_step, dig_or_enter_step, enter_step,
    instructions, irc_step, room_command_of, room_command_step, room_key, room_labels, DigView,
    EnterView, RootView,
};
use crate::text::{ascii_lower, join, strip_char, trim, unescape, words};
use crate::yaml::ctx_text;

verus! {

// ---- the words of commands ----

/// Whether `command` is `word` without its first `n` characters, all of them
/// colons, and with small letters for its ASCII capitals.
pub open spec fn spells(word: Seq<char>, command: Seq<char>, n: int) -> bool {
    &&& 0 <= n <= word.len()
    &&& forall|i: int| 0 <= i < n ==> word[i] == ':'
    &&& n < word.len() ==> word[n] != ':'
    &&& command.len() == word.len() - n
    &&& forall|i: int|
        0 <= i < command.len() ==> #[trigger] command[i] == (if 'A' <= word[n + i] && word[n + i]
            <= 'Z' {
            ((word[n + i] as u8) + 32u8) as char
        } else {
            word[n + i]
        })
}

pub proof fn lemma_spelt(word: Seq<char>) -> (n: int)
    ensures
        spells(word, command_word(word), n),
    decreases word.len(),
{
    if word.len() > 0 && word[0] == ':' {
        let rest = word.drop_first();
        let m = lemma_spelt(rest);
        assert(strip_char(word, ':') == strip_char(rest, ':'));
        let command = command_word(word);
        assert forall|i: int| 0 <= i < m + 1 implies word[i] == ':' by {
            if i > 0 {
                assert(rest[i - 1] == word[i]);
            }
        }
        assert forall|i: int| 0 <= i < command.len() implies #[trigger] command[i] == (if 'A'
            <= word[m + 1 + i] && word[m + 1 + i] <= 'Z' {
            ((word[m + 1 + i] as u8) + 32u8) as char
        } else {
            word[m + 1 + i]
        }) by {
            assert(rest[m + i] == word[m + 1 + i]);
        }
        m + 1
    } else {
        assert(strip_char(word, ':') == word);
        0
    }
}

/// The first word of an input is the command, whatever colons stand before it
/// and in whatever case; the words behind it are its arguments. No word at all
/// is a look.
pub proof fn first_word_is_the_command(input: Seq<char>)
    ensures
        words(input).len() == 0 ==> room_command_of(input) == "look"@ && command_args(input).len()
            == 0,
        words(input).len() > 0 ==> command_args(input) == words(input).skip(1) && exists|n: int|
            #[trigger] spells(words(input)[0], room_command_of(input), n),
{
    if words(input).len() == 0 {
        reveal_strlit("look");
        assert(strip_char("look"@, ':') == "look"@);
        assert(ascii_lower("look"@) =~= "look"@);
    } else {
        let n = lemma_spelt(words(input)[0]);
        assert(spells(words(input)[0], room_command_of(input), n));
    }
}

/// What tells the words of the commands apart.
pub proof fn lemma_command_words()
    ensures
        "help"@.len() == 4 && "help"@[0] == 'h',
        "look"@.len() == 4 && "look"@[0] == 'l' && "look"@[1] == 'o',
        "exits"@.len() == 5 && "exits"@[0] == 'e' && "exits"@[1] == 'x',
        "say"@.len() == 3 && "say"@[0] == 's',
        "emote"@.len() == 5 && "emote"@[0] == 'e' && "emote"@[1] == 'm',
        "prop"@.len() == 4 && "prop"@[0] == 'p',
        "owner"@.len() == 5 && "owner"@[0] == 'o',
        "unlock"@.len() == 6 && "unlock"@[0] == 'u',
        "irc-server"@.len() == 10,
        "irc-nick"@.len() == 8 && "irc-nick"@[0] == 'i',
        "irc-channel"@.len() == 11 && "irc-channel"@[5] == 'h',
        "irc-connect"@.len() == 11 && "irc-connect"@[5] == 'o',
        "irc-disconnect"@.len() == 14,
        "leave"@.len() == 5 && "leave"@[0] == 'l',
        "list"@.len() == 4 && "list"@[0] == 'l' && "list"@[1] == 'i',
        "dig"@.len() == 3 && "dig"@[0] == 'd' && "dig"@[1] == 'i',
        "describe"@.len() == 8 && "describe"@[0] == 'd',
        "exit-add"@.len() == 8 && "exit-add"@[0] == 'e' && "exit-add"@[5] == 'a',
        "exit-del"@.len() == 8 && "exit-del"@[0] == 'e' && "exit-del"@[5] == 'd',
        "delete"@.len() == 6 && "delete"@[0] == 'd',
        "del"@.len() == 3 && "del"@[0] == 'd' && "del"@[1] == 'e',
        "ctx"@.len() == 3 && "ctx"@[0] == 'c',
        "enter"@.len() == 5 && "enter"@[0] == 'e' && "enter"@[1] == 'n',
{
    reveal_strlit("help");
    reveal_strlit("look");
    reveal_strlit("exits");
    reveal_strlit("say");
    reveal_strlit("emote");
    reveal_strlit("prop");
    reveal_strlit("owner");
    reveal_strlit("unlock");
    reveal_strlit("irc-server");
    reveal_strlit("irc-nick");
    reveal_strlit("irc-channel");
    reveal_strlit("irc-connect");
    reveal_strlit("irc-disconnect");
    reveal_strlit("leave");
    reveal_strlit("list");
    reveal_strlit("dig");
    reveal_strlit("describe");
    reveal_strlit("exit-add");
    reveal_strlit("exit-del");
    reveal_strlit("delete");
    reveal_strlit("del");
    reveal_strlit("ctx");
    reveal_strlit("enter");
}

// ---- inside a room ----

/// What a room is called: its prop `name`, or else its label.
pub open spec fn called(room: RoomView) -> Seq<char> {
    if room.props.contains_key("name"@) {
        room.props["name"@]
    } else {
        room.label
    }
}

/// Whether `did` owns the room by its prop `owner`.
pub open spec fn owned_by(room: RoomView, did: Seq<char>) -> bool {
    room.props.contains_key("owner"@) && room.props["owner"@] == did
}

/// Connecting and disconnecting the channel and giving the room away are refused
/// to anyone but a runtime owner, before anything else is looked at; a room that
/// is not there refuses every command.
pub proof fn only_these_commands_need_an_owner(
    root: RootView,
    caller: Seq<char>,
    name: Seq<char>,
    input: Seq<char>,
)
    ensures
        ({
            let command = room_command_of(input);
            let guarded = command == "irc-connect"@ || command == "irc-disconnect"@ || command
                == "owner"@;
            let step = room_command_step(root, caller, name, input);
            &&& guarded && !root.owners.contains(caller) ==> step == (
                root,
                Err::<Seq<char>, Seq<char>>("only owners may do this"@),
            )
            &&& !(guarded && !root.owners.contains(caller)) && room_key(root, name) is None ==> step
                == (root, Err::<Seq<char>, Seq<char>>("entity not found"@))
        }),
{
}

/// Looking at a room tells its name, its description and its exits, one line for
/// each, and changes nothing.
pub proof fn looking_tells_the_room(
    root: RootView,
    caller: Seq<char>,
    name: Seq<char>,
    input: Seq<char>,
    lines: Seq<Seq<char>>,
)
    requires
        room_key(root, name) is Some,
        ({
            let exits = root.entities[room_key(root, name)->0].exits;
            &&& lines.len() == exits.len()
            &&& forall|i: int|
                0 <= i < exits.len() ==> #[trigger] lines[i] == exits[i].name + " -> "@
                    + exits[i].target
        }),
        ({
            let command = room_command_of(input);
            command == "help"@ || command == "look"@ || command == "exits"@
        }),
    ensures
        ({
            let room = root.entities[room_key(root, name)->0];
            let (after, result) = room_command_step(root, caller, name, input);
            let listed = if room.exits.len() == 0 {
                "(no exits)"@
            } else {
                join(lines, "\n"@)
            };
            let description = if room.props.contains_key("description"@) {
                room.props["description"@]
            } else {
                Seq::empty()
            };
            &&& after == root
            &&& room_command_of(input) == "exits"@ ==> result == Ok::<Seq<char>, Seq<char>>(listed)
            &&& room_command_of(input) != "exits"@ ==> result == Ok::<Seq<char>, Seq<char>>(
                called(room) + "\n"@ + description + "\nExits:\n"@ + listed,
            )
        }),
{
    lemma_command_words();
    let f = room_key(root, name)->0;
    lemma_same_room(root, f);
    let exits = root.entities[f].exits;
    assert(lines =~= exits.map_values(|exit: ExitView| exit.name + " -> "@ + exit.target));
}

/// Who is in a room may speak in it, and nobody else; the command itself changes
/// nothing.
pub proof fn occupants_alone_may_speak(
    root: RootView,
    caller: Seq<char>,
    name: Seq<char>,
    input: Seq<char>,
)
    requires
        room_key(root, name) is Some,
        room_command_of(input) == "say"@ || room_command_of(input) == "emote"@,
    ensures
        ({
            let inside = root.entities[room_key(root, name)->0].presence.contains_key(caller);
            let (after, result) = room_command_step(root, caller, name, input);
            &&& after == root
            &&& inside ==> result == Ok::<Seq<char>, Seq<char>>(Seq::empty())
            &&& !inside ==> result == Err::<Seq<char>, Seq<char>>("sender is not in the room"@)
        }),
{
    lemma_command_words();
    lemma_same_room(root, room_key(root, name)->0);
}

/// The `prop` command reads a prop where it is given no value, and sets one,
/// which changes that prop alone, where it is given a value by the room's owner
/// or a runtime owner. The prop `owner` is not set this way.
pub proof fn prop_reads_or_sets_one_prop(
    root: RootView,
    caller: Seq<char>,
    name: Seq<char>,
    input: Seq<char>,
)
    requires
        room_key(root, name) is Some,
        room_command_of(input) == "prop"@,
    ensures
        ({
            let f = room_key(root, name)->0;
            let room = root.entities[f];
            let args = command_args(input);
            let value = join(args.skip(1), " "@);
            let (after, result) = room_command_step(root, caller, name, input);
            let entitled = root.owners.contains(caller) || owned_by(room, caller);
            &&& args.len() == 0 ==> after == root && result == Err::<Seq<char>, Seq<char>>(
                "usage: :prop <key> [value]"@,
            )
            &&& args.len() > 0 && value.len() == 0 ==> after == root && result == Ok::<
                Seq<char>,
                Seq<char>,
            >(
                if room.props.contains_key(args[0]) {
                    room.props[args[0]]
                } else {
                    "(unset)"@
                },
            )
            &&& args.len() > 0 && value.len() > 0 && args[0] == "owner"@ ==> after == root && result
                == Err::<Seq<char>, Seq<char>>("owner is a protected prop; use :owner <did>"@)
            &&& args.len() > 0 && value.len() > 0 && args[0] != "owner"@ && !entitled ==> after
                == root && result == Err::<Seq<char>, Seq<char>>(
                "only the room owner may set props"@,
            )
            &&& args.len() > 0 && value.len() > 0 && args[0] != "owner"@ && entitled ==> {
                &&& result == Ok::<Seq<char>, Seq<char>>(args[0] + " set"@)
                &&& differs_in_room(root, after, f)
                &&& after.entities[f] == (RoomView {
                    props: room.props.insert(args[0], value),
                    ..room
                })
            }
        }),
{
    lemma_command_words();
    let f = room_key(root, name)->0;
    lemma_same_room(root, f);
    let after = room_command_step(root, caller, name, input).0;
    assert(after.entities.dom() =~= root.entities.dom());
}

/// A runtime owner gives a room to the one that is named, and to nobody where
/// not exactly one is named; nothing else changes.
pub proof fn owner_gives_the_room_away(
    root: RootView,
    caller: Seq<char>,
    name: Seq<char>,
    input: Seq<char>,
)
    requires
        root.owners.contains(caller),
        room_key(root, name) is Some,
        room_command_of(input) == "owner"@,
    ensures
        ({
            let f = room_key(root, name)->0;
            let room = root.entities[f];
            let args = command_args(input);
            let (after, result) = room_command_step(root, caller, name, input);
            &&& args.len() != 1 ==> after == root && result == Err::<Seq<char>, Seq<char>>(
                "usage: :owner <did>"@,
            )
            &&& args.len() == 1 ==> {
                &&& result == Ok::<Seq<char>, Seq<char>>("owner set to "@ + args[0])
                &&& differs_in_room(root, after, f)
                &&& args[0].len() > 0 ==> after.entities[f] == (RoomView {
                    props: room.props.insert("owner"@, args[0]),
                    ..room
                })
                &&& args[0].len() > 0 ==> owned_by(after.entities[f], args[0])
            }
        }),
{
    lemma_command_words();
    let f = room_key(root, name)->0;
    lemma_same_room(root, f);
    let after = room_command_step(root, caller, name, input).0;
    assert(after.entities.dom() =~= root.entities.dom());
}

/// A locked room is unlocked for its owner, for a runtime owner, and for whoever
/// tells its secret; that takes the prop `locked` away and changes nothing else.
/// Anyone else is refused, and nothing changes.
pub proof fn unlocking_takes_the_secret_away(
    root: RootView,
    caller: Seq<char>,
    name: Seq<char>,
    input: Seq<char>,
)
    requires
        room_key(root, name) is Some,
        room_command_of(input) == "unlock"@,
    ensures
        ({
            let f = room_key(root, name)->0;
            let room = root.entities[f];
            let told = join(command_args(input), " "@);
            let lock = room.props.contains_key("locked"@) && room.props["locked"@].len() > 0;
            let entitled = root.owners.contains(caller) || owned_by(room, caller);
            let (after, result) = room_command_step(root, caller, name, input);
            &&& !lock ==> after == root && result == Ok::<Seq<char>, Seq<char>>(
                "room is not locked"@,
            )
            &&& lock && (entitled || told == room.props["locked"@]) ==> {
                &&& result == Ok::<Seq<char>, Seq<char>>("unlocked"@)
                &&& differs_in_room(root, after, f)
                &&& after.entities[f] == (RoomView {
                    props: room.props.remove("locked"@),
                    ..room
                })
            }
            &&& lock && !entitled && told != room.props["locked"@] ==> after == root && result
                == Err::<Seq<char>, Seq<char>>(
                if told.len() == 0 {
                    "usage: :unlock <secret>"@
                } else {
                    "wrong unlock secret"@
                },
            )
        }),
{
    lemma_command_words();
    let f = room_key(root, name)->0;
    lemma_same_room(root, f);
    let after = room_command_step(root, caller, name, input).0;
    assert(after.entities.dom() =~= root.entities.dom());
}

/// The binding of a room, with nothing set where it has none.
pub open spec fn binding_before(room: RoomView) -> BindingView {
    match room.irc {
        Some(binding) => binding,
        None => BindingView {
            server: Seq::empty(),
            channel: Seq::empty(),
            nick: Seq::empty(),
            net: None,
            pass: None,
        },
    }
}

/// A command that sets the server, the nick or the channel of a room sets that
/// part of its binding alone: the other parts, and everything else in the room
/// and elsewhere, are as they were. Without a value the part is shown. A server
/// that is no usable URL and a channel that is no `#` name are refused, and
/// nothing changes.
pub proof fn settings_change_one_part_of_the_binding(
    root: RootView,
    caller: Seq<char>,
    name: Seq<char>,
    input: Seq<char>,
)
    requires
        room_key(root, name) is Some,
        ({
            let command = room_command_of(input);
            command == "irc-server"@ || command == "irc-nick"@ || command == "irc-channel"@
        }),
    ensures
        ({
            let command = room_command_of(input);
            let f = room_key(root, name)->0;
            let before = binding_before(root.entities[f]);
            let value = join(command_args(input), " "@);
            let (after, result) = room_command_step(root, caller, name, input);
            let irc = after.entities[f].irc;
            &&& differs_in_room(root, after, f)
            &&& after.entities[f] == (RoomView { irc, ..root.entities[f] })
            &&& value.len() == 0 || result is Err ==> after == root
            &&& value.len() > 0 && result is Ok ==> {
                &&& irc is Some
                &&& irc->0.server == if command == "irc-server"@ {
                    value
                } else {
                    before.server
                }
                &&& irc->0.nick == if command == "irc-nick"@ {
                    value
                } else {
                    before.nick
                }
                &&& irc->0.channel == if command == "irc-channel"@ {
                    value
                } else {
                    before.channel
                }
                &&& irc->0.net == before.net
                &&& irc->0.pass == before.pass
            }
        }),
{
    lemma_command_words();
    let f = room_key(root, name)->0;
    lemma_same_room(root, f);
    let after = room_command_step(root, caller, name, input).0;
    assert(after.entities.dom() =~= root.entities.dom());
}

/// What the commands that set up a channel tell, and which values they refuse.
pub proof fn settings_are_told(
    root: RootView,
    caller: Seq<char>,
    name: Seq<char>,
    input: Seq<char>,
)
    requires
        room_key(root, name) is Some,
    ensures
        ({
            let command = room_command_of(input);
            let before = binding_before(root.entities[room_key(root, name)->0]);
            let value = join(command_args(input), " "@);
            let result = room_command_step(root, caller, name, input).1;
            &&& command == "irc-server"@ && value.len() == 0 ==> result == Ok::<
                Seq<char>,
                Seq<char>,
            >(
                if before.server.len() == 0 {
                    "(IRC server not set)"@
                } else {
                    before.server
                },
            )
            &&& command == "irc-server"@ && value.len() > 0 ==> match endpoint_at(value) {
                Ok(_) => result == Ok::<Seq<char>, Seq<char>>("IRC server set to "@ + value),
                Err(error) => result == Err::<Seq<char>, Seq<char>>(error),
            }
            &&& command == "irc-nick"@ ==> result == Ok::<Seq<char>, Seq<char>>(
                if value.len() > 0 {
                    "IRC nick set to "@ + value
                } else if before.nick.len() == 0 {
                    "(IRC nick not set)"@
                } else {
                    before.nick
                },
            )
            &&& command == "irc-channel"@ && value.len() == 0 ==> result == Ok::<
                Seq<char>,
                Seq<char>,
            >(
                if before.channel.len() == 0 {
                    "(IRC channel not set)"@
                } else {
                    before.channel
                },
            )
            &&& command == "irc-channel"@ && value.len() > 0 ==> result == if value[0] == '#'
                && value.len() > 1 {
                Ok::<Seq<char>, Seq<char>>("IRC channel set to "@ + value)
            } else {
                Err("usage: :irc-channel #<name>"@)
            }
        }),
{
    lemma_command_words();
}

/// The order in which two parts of a binding are set does not matter.
pub proof fn settings_can_be_given_in_any_order(
    room: RoomView,
    first: Seq<char>,
    a: Seq<Seq<char>>,
    second: Seq<char>,
    b: Seq<Seq<char>>,
)
    requires
        first != second,
        first == "irc-server"@ || first == "irc-nick"@ || first == "irc-channel"@,
        second == "irc-server"@ || second == "irc-nick"@ || second == "irc-channel"@,
    ensures
        irc_step(irc_step(room, first, a).0, second, b).0 == irc_step(
            irc_step(room, second, b).0,
            first,
            a,
        ).0,
        irc_step(irc_step(room, first, a).0, second, b).1 == irc_step(room, second, b).1,
{
    lemma_command_words();
}

/// A room whose server and channel were set, in whatever order and whatever it
/// was bound to before, can be connected, and is then on that channel.
pub proof fn settings_lead_to_a_connection(
    room: RoomView,
    server: Seq<char>,
    channel: Seq<char>,
    args: Seq<Seq<char>>,
)
    requires
        server.len() > 0,
        endpoint_at(server) is Ok,
        channel.len() > 1,
        channel[0] == '#',
    ensures
        ({
            let first = irc_step(room, "irc-channel"@, seq![channel]).0;
            let (after, result) = irc_step(
                irc_step(first, "irc-server"@, seq![server]).0,
                "irc-connect"@,
                args,
            );
            let other = irc_step(room, "irc-server"@, seq![server]).0;
            &&& result == Ok::<Seq<char>, Seq<char>>("connected "@ + channel + " on "@ + server)
            &&& after.irc_active
            &&& after.irc is Some && after.irc->0.channel == channel && after.irc->0.server
                == server
            &&& irc_step(
                irc_step(other, "irc-channel"@, seq![channel]).0,
                "irc-connect"@,
                args,
            ) == (after, result)
        }),
{
    lemma_command_words();
    assert(join(seq![channel], " "@) == channel);
    assert(join(seq![server], " "@) == server);
}

/// A channel is switched on where the room is bound to a usable server and a
/// `#` name, and refused otherwise; it is switched off in any case, which leaves
/// nobody on it. Neither changes the binding or anything else.
pub proof fn channel_is_switched_on_and_off(
    root: RootView,
    caller: Seq<char>,
    name: Seq<char>,
    input: Seq<char>,
)
    requires
        root.owners.contains(caller),
        room_key(root, name) is Some,
    ensures
        ({
            let command = room_command_of(input);
            let f = room_key(root, name)->0;
            let room = root.entities[f];
            let (after, result) = room_command_step(root, caller, name, input);
            &&& command == "irc-connect"@ ==> match room.irc {
                None => after == root && result == Err::<Seq<char>, Seq<char>>(
                    "set the IRC server and channel before :irc-connect"@,
                ),
                Some(binding) => match endpoint_at(binding.server) {
                    Err(error) => after == root && result == Err::<Seq<char>, Seq<char>>(error),
                    Ok(_) => if binding.channel.len() > 1 && binding.channel[0] == '#' {
                        &&& result == Ok::<Seq<char>, Seq<char>>(
                            "connected "@ + binding.channel + " on "@ + binding.server,
                        )
                        &&& differs_in_room(root, after, f)
                        &&& after.entities[f] == (RoomView { irc_active: true, ..room })
                    } else {
                        after == root && result == Err::<Seq<char>, Seq<char>>(
                            "set the IRC channel with :irc-channel #<name>"@,
                        )
                    },
                },
            }
            &&& command == "irc-disconnect"@ ==> {
                &&& result == Ok::<Seq<char>, Seq<char>>("disconnected "@ + called(room))
                &&& differs_in_room(root, after, f)
                &&& after.entities[f] == (RoomView {
                    irc_active: false,
                    irc_mirrors: Map::empty(),
                    irc_occupants: Map::empty(),
                    ..room
                })
            }
        }),
{
    lemma_command_words();
    let f = room_key(root, name)->0;
    lemma_same_room(root, f);
    let after = room_command_step(root, caller, name, input).0;
    assert(after.entities.dom() =~= root.entities.dom());
}

/// Who leaves a room is not in it any more; nothing else changes.
pub proof fn leaving_takes_one_presence_away(
    root: RootView,
    caller: Seq<char>,
    name: Seq<char>,
    input: Seq<char>,
)
    requires
        room_key(root, name) is Some,
        room_command_of(input) == "leave"@,
    ensures
        ({
            let f = room_key(root, name)->0;
            let room = root.entities[f];
            let (after, result) = room_command_step(root, caller, name, input);
            &&& result == Ok::<Seq<char>, Seq<char>>("left "@ + called(room))
            &&& differs_in_room(root, after, f)
            &&& after.entities[f] == (RoomView { presence: room.presence.remove(caller), ..room })
        }),
{
    lemma_command_words();
    let f = room_key(root, name)->0;
    let after = room_command_step(root, caller, name, input).0;
    assert(after.entities.dom() =~= root.entities.dom());
}

/// A word that is none of the room's commands is refused, and nothing changes.
pub proof fn unknown_room_command_is_refused(
    root: RootView,
    caller: Seq<char>,
    name: Seq<char>,
    input: Seq<char>,
)
    requires
        room_key(root, name) is Some,
        ({
            let word = room_command_of(input);
            &&& word != "help"@ && word != "look"@ && word != "exits"@ && word != "say"@
            &&& word != "emote"@ && word != "prop"@ && word != "owner"@ && word != "unlock"@
            &&& word != "irc-server"@ && word != "irc-nick"@ && word != "irc-channel"@
            &&& word != "irc-connect"@ && word != "irc-disconnect"@ && word != "leave"@
        }),
    ensures
        room_command_step(root, caller, name, input) == (
            root,
            Err::<Seq<char>, Seq<char>>(
                "unknown room command '"@ + room_command_of(input)
                    + "' (try: look, exits, say, emote, prop, owner, unlock, irc-server, irc-nick, irc-channel, irc-connect, irc-disconnect, leave)"@,
            ),
        ),
{
    lemma_same_room(root, room_key(root, name)->0);
}

// ---- on the concourse ----

/// Whether `input` gives the command `word` on the concourse.
pub open spec fn gives(input: Seq<char>, word: Seq<char>) -> bool {
    &&& trim(input).len() > 0
    &&& words(trim(input)).len() > 0
    &&& room_command_of(trim(input)) == word
}

/// Asking for help, looking, and saying nothing tell what can be done on the
/// concourse and which rooms there are; asking for the exits tells the rooms
/// alone, one on each line. Nothing changes.
pub proof fn concourse_tells_of_its_rooms(
    root: RootView,
    caller: Seq<char>,
    input: Seq<char>,
    fragment: Seq<char>,
    exit: Seq<char>,
)
    ensures
        ({
            let labels = room_labels(root);
            let step = concourse_command_step(root, caller, input, fragment, exit);
            &&& trim(input).len() == 0 || gives(input, "help"@) || gives(input, "look"@) ==> step
                == (root, Ok::<Seq<char>, Seq<char>>(instructions(root)))
            &&& gives(input, "exits"@) || gives(input, "list"@) ==> step == (
                root,
                Ok::<Seq<char>, Seq<char>>(
                    if labels.len() == 0 {
                        "(no rooms yet)"@
                    } else {
                        join(labels, "\n"@)
                    },
                ),
            )
            &&& instructions(root)
                == "Welcome to #concourse\nUse dig <name> to enter an existing room or create and enter a new one.\nLink an existing room in another runtime: dig <name> to <did:ma:...#fragment>\nSet room description: describe <room> <text_with_underscores>\nAdd exit: exit-add <room> <name> <did:ma:...#fragment>\nRemove exit: exit-del <room> <name>\nDelete room: delete <name>\nShow room ctx: ctx <room>\nList rooms with: exits\nInside a room: :prop <key> [value], :owner <did>, :unlock [secret], dig <name>, and IRC config with :irc-server, :irc-nick, :irc-channel, then :irc-connect (owners only).\nKnown rooms: "@
                + (if labels.len() == 0 {
                "(no rooms yet)"@
            } else {
                join(labels, ", "@)
            })
        }),
{
    lemma_command_words();
}

/// Describing a room sets its description, with spaces for underscores, and
/// nothing else.
pub proof fn describing_sets_the_description(
    root: RootView,
    caller: Seq<char>,
    input: Seq<char>,
    fragment: Seq<char>,
    exit: Seq<char>,
)
    requires
        gives(input, "describe"@),
    ensures
        ({
            let args = command_args(trim(input));
            let text = join(args.skip(1), " "@);
            let (after, result) = concourse_command_step(root, caller, input, fragment, exit);
            &&& args.len() == 0 || text.len() == 0 ==> after == root && result == Err::<
                Seq<char>,
                Seq<char>,
            >("usage: describe <room> <text_with_underscores>"@)
            &&& args.len() > 0 && text.len() > 0 ==> match room_key(root, args[0]) {
                None => after == root && result == Err::<Seq<char>, Seq<char>>(
                    "entity not found"@,
                ),
                Some(f) => {
                    let room = root.entities[f];
                    let told = after.entities[f].props["description"@];
                    &&& result == Ok::<Seq<char>, Seq<char>>("updated description for "@ + args[0])
                    &&& differs_in_room(root, after, f)
                    &&& after.entities[f] == (RoomView {
                        props: room.props.insert("description"@, told),
                        ..room
                    })
                    &&& told.len() == text.len()
                    &&& forall|i: int|
                        0 <= i < text.len() ==> #[trigger] told[i] == if text[i] == '_' {
                            ' '
                        } else {
                            text[i]
                        }
                },
            }
        }),
{
    lemma_command_words();
    let after = concourse_command_step(root, caller, input, fragment, exit).0;
    let args = command_args(trim(input));
    if args.len() > 0 && room_key(root, args[0]) is Some {
        let text = join(args.skip(1), " "@);
        assert(unescape(text).len() == text.len());
        assert(after.entities.dom() =~= root.entities.dom());
    }
}

/// Adding an exit to a room points an exit of that room to the target and
/// changes nothing else.
pub proof fn exit_add_adds_one_exit(
    root: RootView,
    caller: Seq<char>,
    input: Seq<char>,
    fragment: Seq<char>,
    exit: Seq<char>,
)
    requires
        gives(input, "exit-add"@),
    ensures
        ({
            let args = command_args(trim(input));
            let (after, result) = concourse_command_step(root, caller, input, fragment, exit);
            &&& args.len() < 3 ==> after == root && result == Err::<Seq<char>, Seq<char>>(
                "usage: exit-add <room> <name> <target>"@,
            )
            &&& args.len() >= 3 ==> match room_key(root, args[0]) {
                None => after == root && result == Err::<Seq<char>, Seq<char>>(
                    "entity not found"@,
                ),
                Some(f) => {
                    let room = root.entities[f];
                    let exits = after.entities[f].exits;
                    &&& result == Ok::<Seq<char>, Seq<char>>(
                        "added exit "@ + args[1] + " -> "@ + args[2],
                    )
                    &&& differs_in_room(root, after, f)
                    &&& after.entities[f] == (RoomView { exits, ..room })
                    &&& pointed(room.exits, exits, args[1], args[2], exit)
                    &&& exists|i: int|
                        0 <= i < exits.len() && (#[trigger] exits[i]).name == args[1]
                            && exits[i].target == args[2]
                },
            }
        }),
{
    lemma_command_words();
    let after = concourse_command_step(root, caller, input, fragment, exit).0;
    let args = command_args(trim(input));
    if args.len() >= 3 && room_key(root, args[0]) is Some {
        let room = root.entities[room_key(root, args[0])->0];
        adding_an_exit_points_it(room.exits, args[1], args[2], exit);
        assert(after.entities.dom() =~= root.entities.dom());
    }
}

/// Removing an exit takes the exits of that name out of the room, keeps the
/// others in their order, and changes nothing else.
pub proof fn exit_del_removes_one_name(
    root: RootView,
    caller: Seq<char>,
    input: Seq<char>,
    fragment: Seq<char>,
    exit: Seq<char>,
)
    requires
        gives(input, "exit-del"@),
    ensures
        ({
            let args = command_args(trim(input));
            let (after, result) = concourse_command_step(root, caller, input, fragment, exit);
            &&& args.len() < 2 ==> after == root && result == Err::<Seq<char>, Seq<char>>(
                "usage: exit-del <room> <name>"@,
            )
            &&& args.len() >= 2 ==> match room_key(root, args[0]) {
                None => after == root && result == Err::<Seq<char>, Seq<char>>(
                    "entity not found"@,
                ),
                Some(f) => {
                    let room = root.entities[f];
                    let there = exists|i: int|
                        0 <= i < room.exits.len() && (#[trigger] room.exits[i]).name == args[1];
                    &&& !there ==> after == root && result == Err::<Seq<char>, Seq<char>>(
                        "exit not found"@,
                    )
                    &&& there ==> {
                        &&& result == Ok::<Seq<char>, Seq<char>>("removed exit "@ + args[1])
                        &&& differs_in_room(root, after, f)
                        &&& after.entities[f] == (RoomView {
                            exits: room.exits.filter(|e: ExitView| e.name != args[1]),
                            ..room
                        })
                    }
                },
            }
        }),
{
    lemma_command_words();
    let after = concourse_command_step(root, caller, input, fragment, exit).0;
    let args = command_args(trim(input));
    if args.len() >= 2 && room_key(root, args[0]) is Some {
        let f = room_key(root, args[0])->0;
        removing_an_exit_keeps_the_others(root.entities[f].exits, args[1]);
        lemma_same_room(root, f);
        assert(after.entities.dom() =~= root.entities.dom());
    }
}

/// The commands `dig`, `delete` and `enter` do what digging, deleting and
/// entering do, for the caller, and tell how it went; `ctx` shows the room and
/// changes nothing.
pub proof fn concourse_commands_work_for_the_caller(
    root: RootView,
    caller: Seq<char>,
    input: Seq<char>,
    fragment: Seq<char>,
    exit: Seq<char>,
)
    ensures
        ({
            let args = command_args(trim(input));
            let (after, result) = concourse_command_step(root, caller, input, fragment, exit);
            &&& gives(input, "dig"@) ==> match dig_spec(args) {
                Err(error) => after == root && result == Err::<Seq<char>, Seq<char>>(error),
                Ok(spec_) => {
                    let dug = dig_or_enter_step(root, caller, spec_, fragment, exit);
                    &&& after == dug.0
                    &&& match dug.1 {
                        Err(error) => result == Err::<Seq<char>, Seq<char>>(error),
                        Ok(DigView::Local { fragment, name, description }) => result == Ok::<
                            Seq<char>,
                            Seq<char>,
                        >("entered "@ + name),
                        Ok(DigView::Foreign { target, label }) => result == Ok::<
                            Seq<char>,
                            Seq<char>,
                        >("linked "@ + label + " -> "@ + target),
                    }
                },
            }
            &&& (gives(input, "delete"@) || gives(input, "del"@)) && args.len() == 0 ==> after
                == root && result == Err::<Seq<char>, Seq<char>>("usage: delete <entity>"@)
            &&& (gives(input, "delete"@) || gives(input, "del"@)) && args.len() > 0 ==> {
                let gone = delete_step(root, caller, args[0]);
                &&& after == gone.0
                &&& gone.1 is Ok ==> result == Ok::<Seq<char>, Seq<char>>("deleted "@ + args[0])
                &&& gone.1 is Err ==> result == Err::<Seq<char>, Seq<char>>(gone.1->Err_0)
            }
            &&& gives(input, "enter"@) && args.len() == 0 ==> after == root && result == Err::<
                Seq<char>,
                Seq<char>,
            >("usage: enter <entity>"@)
            &&& gives(input, "enter"@) && args.len() > 0 ==> {
                let inside = enter_step(root, caller, args[0], "{}"@);
                &&& after == inside.0
                &&& match inside.1 {
                    Err(error) => result == Err::<Seq<char>, Seq<char>>(error),
                    Ok(EnterView::Joined) => result == Ok::<Seq<char>, Seq<char>>(
                        "entered "@ + args[0],
                    ),
                    Ok(EnterView::ConcourseGuide(text)) => result == Ok::<Seq<char>, Seq<char>>(
                        instructions(after),
                    ),
                }
            }
            &&& gives(input, "ctx"@) ==> after == root
            &&& gives(input, "ctx"@) && args.len() == 0 ==> result == Err::<Seq<char>, Seq<char>>(
                "usage: ctx <room>"@,
            )
            &&& gives(input, "ctx"@) && args.len() > 0 && room_key(root, args[0]) is None ==> result
                == Err::<Seq<char>, Seq<char>>("entity not found"@)
            &&& gives(input, "ctx"@) && args.len() > 0 && room_key(root, args[0]) is Some ==> result
                == ctx_text(root.entities[room_key(root, args[0])->0])
        }),
{
    lemma_command_words();
}

/// A word that is none of the concourse's commands is refused, and nothing
/// changes.
pub proof fn unknown_concourse_command_is_refused(
    root: RootView,
    caller: Seq<char>,
    input: Seq<char>,
    fragment: Seq<char>,
    exit: Seq<char>,
    word: Seq<char>,
)
    requires
        gives(input, word),
        word != "help"@ && word != "look"@ && word != "exits"@ && word != "list"@,
        word != "dig"@ && word != "describe"@ && word != "exit-add"@ && word != "exit-del"@,
        word != "delete"@ && word != "del"@ && word != "ctx"@ && word != "enter"@,
    ensures
        concourse_command_step(root, caller, input, fragment, exit) == (
            root,
            Err::<Seq<char>, Seq<char>>(
                "unknown #concourse command '"@ + word
                    + "' (try: help, exits, dig, describe, exit-add, exit-del, delete, ctx, enter)"@,
            ),
        ),
{
}

} // verus!
