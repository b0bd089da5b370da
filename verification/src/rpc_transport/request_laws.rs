//! What each request does and how it is answered, and what a failed join comes
//! to.

use vstd::prelude::*;

use crate::bridge::laws::{list_names_every_occupant, person, persons_are_children_of_their_room};
use crate::channel::dig::dig_spec;
use crate::channel::endpoint::endpoint_at;
use crate::channel::room::{joinable, shown_nick, PresenceView, RoomView};
use crate::root::effects::differs_in_room;
use crate::root::model::{
    command_args, command_word, concourse_command_step, dig_from_step, dig_or_enter_step,
    enter_step, exit_at, exit_known, resolve, room_command_of, room_command_step, room_key,
    traversed, DigView, RootView,
};
use crate::root::report::snapshot_of;
use crate::root::report_laws::lemma_exit_at;
use crate::rpc_transport::dispatch::{
    content_payload, did_fragment, dispatched, join_failure, possible, received, Chance,
    DecisionView, EffectView, ReplyView, RequestView,
};
use crate::rpc_transport::wire::{
    command_line, did_enter_tree, enter_tree, request_of, room_tree, speaking_room_tree, traveller,
    traverse_tree,
};
use crate::rpc_transport::wire_laws::command_line_joins_verb_and_arguments;
use crate::term::{cbor_decoded, TermView};
use crate::text::{is_space, join, lemma_one_word, lemma_words_apart, trim, words};

verus! {

/// An answer and nothing beside it.
pub open spec fn told(from_actor: Seq<char>, term: TermView) -> DecisionView {
    DecisionView::Answer { effect: EffectView::Nothing, reply: ReplyView { from_actor, term } }
}

/// `[:error, reason]`.
pub open spec fn refusal(reason: Seq<char>) -> TermView {
    TermView::Array(seq![TermView::Text(":error"@), TermView::Text(reason)])
}

/// `[:ok, text]`.
pub open spec fn consent(text: Seq<char>) -> TermView {
    TermView::Array(seq![TermView::Text(":ok"@), TermView::Text(text)])
}

/// The `i`th argument, or nothing.
pub open spec fn argument(args: Seq<Seq<char>>, i: int) -> Seq<char> {
    if i < args.len() {
        args[i]
    } else {
        Seq::empty()
    }
}

proof fn lemma_verbs()
    ensures
        ":ping"@.len() == 5 && ":ping"@[1] == 'p',
        ":look"@.len() == 5 && ":look"@[1] == 'l',
        ":enter"@.len() == 6 && ":enter"@[1] == 'e' && ":enter"@[2] == 'n',
        ":emote"@.len() == 6 && ":emote"@[1] == 'e' && ":emote"@[2] == 'm',
        ":leave"@.len() == 6 && ":leave"@[1] == 'l',
        ":dig"@.len() == 4 && ":dig"@[1] == 'd' && ":dig"@[2] == 'i',
        ":del"@.len() == 4 && ":del"@[1] == 'd' && ":del"@[2] == 'e',
        ":say"@.len() == 4 && ":say"@[1] == 's',
        ":delete"@.len() == 7,
        ":traverse"@.len() == 9,
        ":irc-connect"@.len() == 12,
        ":irc-disconnect"@.len() == 15,
        "concourse"@.len() == 9,
        "root"@.len() == 4,
{
    reveal_strlit(":ping");
    reveal_strlit(":look");
    reveal_strlit(":enter");
    reveal_strlit(":emote");
    reveal_strlit(":leave");
    reveal_strlit(":dig");
    reveal_strlit(":del");
    reveal_strlit(":say");
    reveal_strlit(":delete");
    reveal_strlit(":traverse");
    reveal_strlit(":irc-connect");
    reveal_strlit(":irc-disconnect");
    reveal_strlit("concourse");
    reveal_strlit("root");
}

// ---- whom a request concerns ----

/// What is no request comes to an error; a ping is answered by whoever was
/// addressed; a request that names no actor is ignored. None of these changes
/// anything.
pub proof fn requests_to_nobody(
    root: RootView,
    request: RequestView,
    runtime: Seq<char>,
    bridged: bool,
    c: Chance,
    verb: Seq<char>,
    args: Seq<Seq<char>>,
    error: Seq<char>,
)
    ensures
        ({
            let r = dispatched(root, request, runtime, bridged, c);
            let asked = request_of(request.term);
            &&& asked == Err::<(Seq<char>, Seq<Seq<char>>), Seq<char>>(error) ==> r == (
                root,
                Err::<DecisionView, Seq<char>>(error),
            )
            &&& asked == Ok::<(Seq<char>, Seq<Seq<char>>), Seq<char>>((":ping"@, args)) ==> r == (
                root,
                Ok::<DecisionView, Seq<char>>(
                    told(
                        if request.fragment is Some && trim(request.fragment->0).len() > 0 {
                            runtime + "#"@ + request.fragment->0
                        } else {
                            runtime
                        },
                        TermView::Text(":pong"@),
                    ),
                ),
            )
            &&& asked == Ok::<(Seq<char>, Seq<Seq<char>>), Seq<char>>((verb, args)) && verb
                != ":ping"@ && request.fragment is None ==> r == (
                root,
                Ok::<DecisionView, Seq<char>>(DecisionView::Ignore),
            )
        }),
{
}

/// Entering a room whose channel can be joined is answered once the channel was
/// joined by the one who entered; entering any other room is answered at once.
pub open spec fn entry_answered(
    decision: DecisionView,
    after: RootView,
    name: Seq<char>,
    did: Seq<char>,
    nick: Seq<char>,
    reply: ReplyView,
) -> bool {
    match room_key(after, name) {
        Some(f) => {
            let room = after.entities[f];
            let on = room.irc_active && room.irc is Some && endpoint_at(room.irc->0.server) is Ok
                && room.irc->0.channel.len() > 1 && room.irc->0.channel[0] == '#';
            &&& on ==> decision == (DecisionView::Join {
                room: name,
                fragment: f,
                binding: room.irc->0,
                did,
                nick,
                reply,
            })
            &&& !on ==> decision == (DecisionView::Answer { effect: EffectView::Nothing, reply })
        },
        None => decision == (DecisionView::Answer { effect: EffectView::Nothing, reply }),
    }
}

/// The answer to a `dig`: a foreign room is named as the one to enter; a room of
/// this runtime is entered; a refusal is told.
pub open spec fn dig_answered(
    decision: DecisionView,
    after: RootView,
    runtime: Seq<char>,
    did: Seq<char>,
    from_actor: Seq<char>,
    result: Result<DigView, Seq<char>>,
) -> bool {
    match result {
        Err(error) => decision == told(from_actor, refusal(error)),
        Ok(DigView::Foreign { target, label }) => decision == told(
            from_actor,
            enter_tree(target, Seq::empty(), label, Seq::empty()),
        ),
        Ok(DigView::Local { fragment, name, description }) => entry_answered(
            decision,
            after,
            fragment,
            did,
            Seq::empty(),
            ReplyView {
                from_actor,
                term: enter_tree(runtime + fragment, Seq::empty(), name, description),
            },
        ),
    }
}

/// Requests to the concourse: entering it, digging from it, looking at it, and
/// giving it a command. A room that was deleted has its bridge stopped.
pub proof fn requests_to_the_concourse(
    root: RootView,
    request: RequestView,
    runtime: Seq<char>,
    bridged: bool,
    c: Chance,
    verb: Seq<char>,
    args: Seq<Seq<char>>,
)
    requires
        request_of(request.term) == Ok::<(Seq<char>, Seq<Seq<char>>), Seq<char>>((verb, args)),
        request.fragment == Some("concourse"@),
    ensures
        ({
            let me = runtime + "#concourse"@;
            let (after, decision) = dispatched(root, request, runtime, bridged, c);
            &&& verb == ":enter"@ ==> {
                let entry = enter_step(root, request.from, "#concourse"@, "{}"@);
                &&& entry.1 is Err ==> after == root && decision == Err::<DecisionView, Seq<char>>(
                    entry.1->Err_0,
                )
                &&& entry.1 is Ok ==> {
                    let room = after.entities[room_key(root, "#concourse"@)->0];
                    &&& after == entry.0
                    &&& decision == Ok::<DecisionView, Seq<char>>(
                        told(
                            me,
                            enter_tree(
                                me,
                                argument(args, 0),
                                room.label,
                                if room.props.contains_key("description"@) {
                                    room.props["description"@]
                                } else {
                                    Seq::empty()
                                },
                            ),
                        ),
                    )
                }
            }
            &&& verb == ":dig"@ ==> decision is Ok && match dig_spec(args) {
                Err(error) => after == root && decision->Ok_0 == told(me, refusal(error)),
                Ok(spec_) => {
                    let dug = dig_or_enter_step(root, request.from, spec_, c.room, c.exit);
                    &&& after == dug.0
                    &&& dig_answered(decision->Ok_0, after, runtime, request.from, me, dug.1)
                },
            }
            &&& verb == ":look"@ ==> after == root && decision is Ok && match room_key(
                root,
                "#concourse"@,
            ) {
                Some(f) => decision->Ok_0 == told(
                    me,
                    room_tree(root, runtime, snapshot_of(root.entities[f], c.presence)),
                ),
                None => decision->Ok_0 == told(me, refusal("concourse room missing"@)),
            }
            &&& verb != ":ping"@ && verb != ":enter"@ && verb != ":dig"@ && verb != ":look"@ ==> {
                let done = concourse_command_step(
                    root,
                    request.from,
                    command_line(verb, args),
                    c.room,
                    c.exit,
                );
                let gone = (verb == ":delete"@ || verb == ":del"@) && args.len() > 0 && resolve(
                    root,
                    args[0],
                ) is Some;
                &&& after == done.0
                &&& done.1 is Err ==> decision == Ok::<DecisionView, Seq<char>>(
                    told(me, refusal(done.1->Err_0)),
                )
                &&& done.1 is Ok && !gone ==> decision == Ok::<DecisionView, Seq<char>>(
                    told(me, consent(done.1->Ok_0)),
                )
                &&& done.1 is Ok && gone ==> decision == Ok::<DecisionView, Seq<char>>(
                    DecisionView::Answer {
                        effect: EffectView::StopBridge { fragment: resolve(root, args[0])->0 },
                        reply: ReplyView { from_actor: me, term: consent(done.1->Ok_0) },
                    },
                )
            }
        }),
{
    lemma_verbs();
}

/// Requests to the root itself: it lets a room be entered, the concourse where
/// none is named, and nothing else.
pub proof fn requests_to_the_root(
    root: RootView,
    request: RequestView,
    runtime: Seq<char>,
    bridged: bool,
    c: Chance,
    verb: Seq<char>,
    args: Seq<Seq<char>>,
)
    requires
        request_of(request.term) == Ok::<(Seq<char>, Seq<Seq<char>>), Seq<char>>((verb, args)),
        request.fragment == Some("root"@),
        verb != ":ping"@,
    ensures
        ({
            let me = runtime + "#root"@;
            let name = if args.len() > 0 && trim(args[0]).len() > 0 {
                args[0]
            } else {
                "#concourse"@
            };
            let entry = enter_step(root, request.from, name, "{}"@);
            let (after, decision) = dispatched(root, request, runtime, bridged, c);
            &&& verb != ":enter"@ ==> after == root && decision == Ok::<DecisionView, Seq<char>>(
                told(
                    me,
                    refusal("unsupported #root command '"@ + verb + "' (try: :enter)"@),
                ),
            )
            &&& verb == ":enter"@ && entry.1 is Err ==> after == root && decision == Err::<
                DecisionView,
                Seq<char>,
            >(entry.1->Err_0)
            &&& verb == ":enter"@ && entry.1 is Ok ==> {
                let room = after.entities[room_key(root, name)->0];
                &&& after == entry.0
                &&& decision is Ok
                &&& entry_answered(
                    decision->Ok_0,
                    after,
                    name,
                    request.from,
                    argument(args, 1),
                    ReplyView {
                        from_actor: me,
                        term: enter_tree(
                            if "did:ma:"@.is_prefix_of(name) {
                                name
                            } else {
                                runtime + room.fragment
                            },
                            argument(args, 1),
                            room.label,
                            if room.props.contains_key("description"@) {
                                room.props["description"@]
                            } else {
                                Seq::empty()
                            },
                        ),
                    },
                )
            }
        }),
{
    lemma_verbs();
}

/// Requests to an exit: it tells the traveller where it leads, the one that is
/// named or else the one who asks, and does nothing else.
pub proof fn requests_to_an_exit(
    root: RootView,
    request: RequestView,
    runtime: Seq<char>,
    bridged: bool,
    c: Chance,
    verb: Seq<char>,
    args: Seq<Seq<char>>,
)
    requires
        request_of(request.term) == Ok::<(Seq<char>, Seq<Seq<char>>), Seq<char>>((verb, args)),
        request.fragment is Some,
        request.fragment->0 != "concourse"@ && request.fragment->0 != "root"@,
        exit_known(root, "#"@ + request.fragment->0),
        verb != ":ping"@,
    ensures
        ({
            let addr = "#"@ + request.fragment->0;
            let who = if traveller(request.term) is Some {
                traveller(request.term)->0
            } else {
                request.from
            };
            let (after, decision) = dispatched(root, request, runtime, bridged, c);
            &&& after == root
            &&& verb == ":traverse"@ ==> decision == Ok::<DecisionView, Seq<char>>(
                told(
                    runtime + addr,
                    traverse_tree(traversed(root, c.holder, addr, who, runtime)),
                ),
            )
            &&& verb != ":traverse"@ ==> decision == Ok::<DecisionView, Seq<char>>(
                told(
                    runtime + addr,
                    refusal("unknown exit command '"@ + verb + "' (try: :traverse)"@),
                ),
            )
        }),
{
}

/// Whether a request is sent to a room of the runtime.
pub open spec fn to_a_room(
    root: RootView,
    request: RequestView,
    verb: Seq<char>,
    args: Seq<Seq<char>>,
) -> bool {
    &&& request_of(request.term) == Ok::<(Seq<char>, Seq<Seq<char>>), Seq<char>>((verb, args))
    &&& request.fragment is Some
    &&& request.fragment->0 != "concourse"@ && request.fragment->0 != "root"@
    &&& !exit_known(root, "#"@ + request.fragment->0)
    &&& verb != ":ping"@
}

/// Entering a room, looking at it and digging from it, asked of the room.
pub proof fn requests_to_enter_look_and_dig(
    root: RootView,
    request: RequestView,
    runtime: Seq<char>,
    bridged: bool,
    c: Chance,
    verb: Seq<char>,
    args: Seq<Seq<char>>,
)
    requires
        to_a_room(root, request, verb, args),
    ensures
        ({
            let addr = "#"@ + request.fragment->0;
            let (after, decision) = dispatched(root, request, runtime, bridged, c);
            &&& verb == ":enter"@ ==> decision is Ok && {
                let nick = argument(args, 0);
                let entry = enter_step(root, request.from, addr, nick);
                &&& after == entry.0
                &&& entry.1 is Err ==> decision->Ok_0 == told(
                    request.to,
                    refusal(entry.1->Err_0),
                )
                &&& entry.1 is Ok ==> entry_answered(
                    decision->Ok_0,
                    after,
                    addr,
                    request.from,
                    nick,
                    ReplyView {
                        from_actor: request.to,
                        term: did_enter_tree(request.from, request.to, nick),
                    },
                )
            }
            &&& verb == ":look"@ ==> after == root && decision is Ok && match room_key(root, addr) {
                Some(f) => decision->Ok_0 == told(
                    request.to,
                    room_tree(root, runtime, snapshot_of(root.entities[f], c.presence)),
                ),
                None => decision->Ok_0 == told(request.to, refusal("entity not found"@)),
            }
            &&& verb == ":dig"@ ==> decision is Ok && match dig_spec(args) {
                Err(error) => after == root && decision->Ok_0 == told(request.to, refusal(error)),
                Ok(spec_) => {
                    let dug = dig_from_step(root, request.from, addr, spec_, c.room, c.exit);
                    &&& after == dug.0
                    &&& dig_answered(
                        decision->Ok_0,
                        after,
                        runtime,
                        request.from,
                        request.to,
                        dug.1,
                    )
                },
            }
        }),
{
    lemma_verbs();
}

/// A command that a room is given by a request is obeyed for the one who asks;
/// where it is refused, or is neither speech nor about the channel nor a leave,
/// its outcome is told and nothing else is done.
pub proof fn requests_give_commands(
    root: RootView,
    request: RequestView,
    runtime: Seq<char>,
    bridged: bool,
    c: Chance,
    verb: Seq<char>,
    args: Seq<Seq<char>>,
)
    requires
        to_a_room(root, request, verb, args),
        verb != ":enter"@ && verb != ":look"@ && verb != ":dig"@,
    ensures
        ({
            let addr = "#"@ + request.fragment->0;
            let me = runtime + addr;
            let done = room_command_step(root, request.from, addr, command_line(verb, args));
            let (after, decision) = dispatched(root, request, runtime, bridged, c);
            &&& after == done.0
            &&& decision is Ok
            &&& done.1 is Err ==> decision->Ok_0 == told(me, refusal(done.1->Err_0))
            &&& done.1 is Ok && verb != ":say"@ && verb != ":emote"@ && verb != ":irc-connect"@
                && verb != ":irc-disconnect"@ && verb != ":leave"@ ==> decision->Ok_0 == told(
                me,
                consent(done.1->Ok_0),
            )
            &&& done.1 is Ok && verb == ":irc-disconnect"@ ==> decision->Ok_0 == (
            DecisionView::Answer {
                effect: EffectView::SwitchOff { fragment: addr },
                reply: ReplyView { from_actor: me, term: consent(done.1->Ok_0) },
            })
            &&& done.1 is Ok && verb == ":leave"@ ==> decision->Ok_0 == (DecisionView::Answer {
                effect: EffectView::Disconnect { fragment: addr, did: request.from },
                reply: ReplyView { from_actor: me, term: consent(done.1->Ok_0) },
            })
            &&& done.1 is Ok && verb == ":irc-connect"@ ==> {
                let f = room_key(after, addr)->0;
                decision->Ok_0 == (DecisionView::Answer {
                    effect: match joinable(after.entities[f]) {
                        Some(binding) => EffectView::ConnectOccupants {
                            fragment: f,
                            binding,
                            presence: c.presence,
                        },
                        None => EffectView::Nothing,
                    },
                    reply: ReplyView { from_actor: me, term: consent(done.1->Ok_0) },
                })
            }
        }),
{
    lemma_verbs();
}

/// Speech that a room is asked to carry goes to its channel under the speaker's
/// name while the room is connected, and is refused to who is not on the channel
/// or where no bridge runs; in a room that is not connected it is told to every
/// occupant, an emote as an emote and speech as speech.
pub proof fn requests_to_speak(
    root: RootView,
    request: RequestView,
    runtime: Seq<char>,
    bridged: bool,
    c: Chance,
    verb: Seq<char>,
    args: Seq<Seq<char>>,
)
    requires
        to_a_room(root, request, verb, args),
        verb == ":say"@ || verb == ":emote"@,
        room_command_step(
            root,
            request.from,
            "#"@ + request.fragment->0,
            command_line(verb, args),
        ).1 is Ok,
    ensures
        ({
            let addr = "#"@ + request.fragment->0;
            let me = runtime + addr;
            let text = join(args, " "@);
            let (after, decision) = dispatched(root, request, runtime, bridged, c);
            let room = after.entities[room_key(after, addr)->0];
            let on = room.irc_active && room.irc is Some && endpoint_at(room.irc->0.server) is Ok
                && room.irc->0.channel.len() > 1 && room.irc->0.channel[0] == '#';
            let there = room.irc_mirrors.contains_key(request.from);
            &&& decision is Ok
            &&& on && !there ==> decision->Ok_0 == told(
                me,
                refusal("not connected to the IRC channel; use :irc-connect"@),
            )
            &&& on && there && !bridged ==> decision->Ok_0 == told(
                me,
                refusal("IRC channel is not active in this room; use :irc-connect"@),
            )
            &&& on && there && bridged ==> decision->Ok_0 == (DecisionView::Answer {
                effect: EffectView::Speak {
                    fragment: addr,
                    did: request.from,
                    text,
                    emote: verb == ":emote"@,
                },
                reply: ReplyView {
                    from_actor: me,
                    term: consent("sent to "@ + room.irc->0.channel),
                },
            })
            &&& !on && !room.presence.contains_key(request.from) ==> decision->Ok_0 == told(
                me,
                refusal("sender is not in the room"@),
            )
            &&& !on && room.presence.contains_key(request.from) ==> decision->Ok_0 == (
            DecisionView::Answer {
                effect: EffectView::Broadcast {
                    from_actor: me,
                    term: TermView::Array(
                        seq![
                            TermView::Text(verb),
                            person(
                                room.presence[request.from].did,
                                me,
                                shown_nick(room.presence[request.from]),
                                "A direct DID presence."@,
                            ),
                            TermView::Text(text),
                        ],
                    ),
                    presence: c.presence,
                },
                reply: ReplyView { from_actor: me, term: consent("ok"@) },
            })
        }),
{
    lemma_verbs();
    let addr = "#"@ + request.fragment->0;
    let after = dispatched(root, request, runtime, bridged, c).0;
    let room = after.entities[room_key(after, addr)->0];
    persons_are_children_of_their_room(runtime, addr, room.presence[request.from], Seq::empty());
}

// ---- a join that failed ----

/// Who could not join is out of the room again, unless it is on the channel
/// already: then it stays in the room under the nick that it has there. Nothing
/// else changes, and the room tells it that its nick cannot be accepted.
pub proof fn failed_join_touches_one_occupant(
    root: RootView,
    runtime: Seq<char>,
    name: Seq<char>,
    did: Seq<char>,
)
    requires
        room_key(root, name) is Some,
    ensures
        ({
            let f = room_key(root, name)->0;
            let room = root.entities[f];
            let (after, notice) = join_failure(root, runtime, name, did);
            let lock = room.props.contains_key("locked"@) && room.props["locked"@].len() > 0;
            let unwanted = room.policy.deny_dids.contains(did) || !(room.policy.allow
                || room.policy.allow_dids.contains(did));
            &&& differs_in_room(root, after, f)
            &&& !room.irc_mirrors.contains_key(did) ==> after.entities[f] == (RoomView {
                presence: room.presence.remove(did),
                ..room
            })
            &&& room.irc_mirrors.contains_key(did) && (lock || unwanted) ==> after.entities[f]
                == room
            &&& room.irc_mirrors.contains_key(did) && !lock && !unwanted ==> after.entities[f] == (
            RoomView {
                presence: room.presence.insert(
                    did,
                    PresenceView { did, ctx: room.irc_mirrors[did] },
                ),
                ..room
            })
            &&& notice.from_actor == runtime + f
            &&& notice.to == did
            &&& notice.term == TermView::Array(
                seq![
                    TermView::Text(":say"@),
                    speaking_room_tree(runtime, runtime + f, room.label),
                    TermView::Text("your nick cannot be accepted"@),
                ],
            )
        }),
{
    let after = join_failure(root, runtime, name, did).0;
    let f = room_key(root, name)->0;
    assert(resolve(root, name) == Some(f));
    assert(room_key(root, f) == Some(f));
    assert(after.entities.dom() =~= root.entities.dom());
}

// ---- messages ----

/// A message is a request where its target is a DID, its content is a payload and
/// the payload is a term; it names the sender, the target and the target's
/// fragment. What is missing is told.
pub proof fn message_holds_a_request(from: Seq<char>, to: Seq<char>, content: Seq<u8>)
    ensures
        ({
            let r = received(from, to, content);
            let payload = content_payload(content);
            &&& did_fragment(to) is None ==> r == Err::<RequestView, Seq<char>>(
                "invalid RPC target did"@,
            )
            &&& did_fragment(to) is Some && payload is None ==> r == Err::<RequestView, Seq<char>>(
                "decoding RPC multicodec"@,
            )
            &&& did_fragment(to) is Some && payload is Some && cbor_decoded(payload->0) is None ==> r
                == Err::<RequestView, Seq<char>>("decoding RPC term"@)
            &&& did_fragment(to) is Some && payload is Some && cbor_decoded(payload->0) is Some
                ==> r == Ok::<RequestView, Seq<char>>(
                RequestView {
                    from,
                    to,
                    fragment: did_fragment(to)->0,
                    term: cbor_decoded(payload->0)->0,
                },
            )
        }),
{
}

/// The occupants that a request walks are all those of the addressed room after
/// it, each once.
pub proof fn request_walks_every_occupant(
    c: Chance,
    root: RootView,
    after: RootView,
    addr: Seq<char>,
    did: Seq<char>,
)
    requires
        possible(c, root, after, addr),
        room_key(after, addr) is Some,
        after.entities[room_key(after, addr)->0].presence.contains_key(did),
    ensures
        c.presence.contains(after.entities[room_key(after, addr)->0].presence[did]),
{
    list_names_every_occupant(
        c.presence,
        after.entities[room_key(after, addr)->0].presence,
        did,
    );
}

/// An exit that is asked is one of the room in which its address was found.
pub proof fn asked_exit_is_in_its_room(
    c: Chance,
    root: RootView,
    after: RootView,
    addr: Seq<char>,
)
    requires
        possible(c, root, after, addr),
        exit_known(root, addr),
    ensures
        root.entities.contains_key(c.holder),
        exists|i: int|
            0 <= i < root.entities[c.holder].exits.len() && (
            #[trigger] root.entities[c.holder].exits[i]).fragment == addr,
{
    lemma_exit_at(root.entities[c.holder].exits, addr);
    let i = exit_at(root.entities[c.holder].exits, addr);
    assert(root.entities[c.holder].exits[i].fragment == addr);
}

/// Whether a text is one word.
pub open spec fn one_word(s: Seq<char>) -> bool {
    s.len() > 0 && forall|i: int| 0 <= i < s.len() ==> !is_space(#[trigger] s[i])
}

/// A verb and its arguments that are words each reach the room or the concourse
/// as that command with those arguments.
pub proof fn request_words_are_the_command_words(verb: Seq<char>, args: Seq<Seq<char>>)
    requires
        one_word(verb),
        forall|i: int| 0 <= i < args.len() ==> one_word(#[trigger] args[i]),
    ensures
        words(command_line(verb, args)) == seq![verb] + args,
        command_args(command_line(verb, args)) == args,
        room_command_of(command_line(verb, args)) == command_word(verb),
    decreases args.len(),
{
    reveal_strlit(" ");
    assert(" "@ =~= seq![' ']);
    lemma_one_word(verb);
    if args.len() == 0 {
        assert(args =~= Seq::<Seq<char>>::empty());
        assert(seq![verb] + args =~= seq![verb]);
        assert(command_line(verb, args) == verb);
    } else {
        let rest = args.drop_last();
        let last = args.last();
        assert forall|i: int| 0 <= i < rest.len() implies one_word(#[trigger] rest[i]) by {
            assert(rest[i] == args[i]);
        }
        request_words_are_the_command_words(verb, rest);
        assert(one_word(args[args.len() - 1]));
        lemma_one_word(last);
        assert(rest.push(last) =~= args);
        command_line_joins_verb_and_arguments(verb, rest, last);
        lemma_words_apart(command_line(verb, rest), last);
        assert(seq![verb] + rest + seq![last] =~= seq![verb] + args);
    }
    assert((seq![verb] + args).skip(1) =~= args);
}

} // verus!
